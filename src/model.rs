//! The plumber's state as a mathematical value, what each step of the
//! plumber does to it, and the laws that hold of those steps.
use vstd::prelude::*;

use crate::actor::{completed, eligible, ready, ActorView, CleanupKeyView, ExecutionView};
use crate::particle::{
    EventView, ExtendedParticleView, FunctionId, PeerId, PeerScope, WorkerId,
};
use crate::schedule::{
    cleanup_pass, collected, lemma_cleanup_room, local_of, release_all, remote_of,
    start_walk, started_executions,
    MAX_CLEANUP_KEYS_SIZE,
};
use crate::token::base58_of;
use crate::vm_pool::VmPoolView;
use crate::workers::{deal_of, is_active, is_registered, workers_unique, PeerScopes, WorkerInfoView};

verus! {

/// The plumber's state: its event queue, its actor maps and pools, the
/// worker registry, and whether a cleanup batch is running.
pub ghost struct PlumberView {
    pub events: Seq<EventView>,
    pub host_actors: Seq<ActorView>,
    pub host_pool: VmPoolView,
    pub worker_actors: Seq<(WorkerId, Seq<ActorView>)>,
    pub worker_pools: Seq<(WorkerId, VmPoolView)>,
    pub workers: Seq<WorkerInfoView>,
    pub scopes: PeerScopes,
    pub cleanup_in_flight: bool,
}

/// Actors of one map: keys are unique, and each actor's mailbox accounts for
/// every particle put in it.
pub open spec fn actors_wf(s: Seq<ActorView>) -> bool {
    &&& forall|i: int, j: int|
        0 <= i < j < s.len() ==> (#[trigger] s[i]).key != (#[trigger] s[j]).key
    &&& forall|i: int|
        0 <= i < s.len() ==> (#[trigger] s[i]).mailbox.len() + s[i].started == s[i].ingested
}

/// An actor of `s` is keyed by signature `k`.
pub open spec fn has_key(s: Seq<ActorView>, k: Seq<u8>) -> bool {
    exists|i: int| 0 <= i < s.len() && (#[trigger] s[i]).key == k
}

/// The position of the actor keyed by `k` (unique in a sound map).
pub open spec fn key_index(s: Seq<ActorView>, k: Seq<u8>) -> int {
    choose|i: int| 0 <= i < s.len() && (#[trigger] s[i]).key == k
}

/// Worker `w` has an actor map.
pub open spec fn has_bucket(s: Seq<(WorkerId, Seq<ActorView>)>, w: WorkerId) -> bool {
    exists|i: int| 0 <= i < s.len() && (#[trigger] s[i]).0 == w
}

/// The position of worker `w`'s actor map.
pub open spec fn bucket_index(s: Seq<(WorkerId, Seq<ActorView>)>, w: WorkerId) -> int {
    choose|i: int| 0 <= i < s.len() && (#[trigger] s[i]).0 == w
}

/// Worker `w` has an interpreter pool.
pub open spec fn has_pool(s: Seq<(WorkerId, VmPoolView)>, w: WorkerId) -> bool {
    exists|i: int| 0 <= i < s.len() && (#[trigger] s[i]).0 == w
}

/// An actor after `p` was put in its mailbox and, if given, `f` installed.
pub open spec fn ingested(
    a: ActorView,
    p: ExtendedParticleView,
    f: Option<FunctionId>,
    now_ms: u64,
) -> ActorView {
    let b = crate::actor::ingest_of(a, p, now_ms);
    match f {
        Some(f) => ActorView { function: Some(f), ..b },
        None => b,
    }
}

/// The actor that `p` creates in `scope`, where a particle token can be made for it.
pub open spec fn fresh_actor(
    p: ExtendedParticleView,
    scope: PeerScope,
    current_peer_id: PeerId,
    deal_id: Option<Seq<char>>,
    now_ms: u64,
) -> Option<ActorView> {
    match p.root_signature {
        Some(s) => Some(
            ActorView {
                key: p.particle.signature,
                scope,
                particle_id: p.particle.id,
                current_peer_id,
                particle_token: base58_of(s),
                deal_id,
                function: None,
                mailbox: Seq::empty(),
                current: None,
                deadline_ms: p.particle.deadline(),
                last_activity_ms: now_ms,
                ingested: 0,
                started: 0,
            },
        ),
        None => None,
    }
}

/// An actor map after `p` was routed to the actor of its signature, created
/// from `fresh` where there was none.
pub open spec fn put_in(
    s: Seq<ActorView>,
    p: ExtendedParticleView,
    f: Option<FunctionId>,
    now_ms: u64,
    fresh: Option<ActorView>,
) -> Seq<ActorView> {
    let k = p.particle.signature;
    if has_key(s, k) {
        let i = key_index(s, k);
        s.update(i, ingested(s[i], p, f, now_ms))
    } else {
        match fresh {
            Some(a) => s.push(ingested(a, p, f, now_ms)),
            None => s,
        }
    }
}

/// Whether a particle for worker `w` from `init_peer_id` is dropped because the
/// worker is inactive and the initiator is neither a manager nor the host.
pub open spec fn denied(v: PlumberView, w: WorkerId, init_peer_id: PeerId) -> bool {
    !is_active(v.workers, w) && !v.scopes.spec_is_management(init_peer_id) && init_peer_id
        != v.scopes.host_peer_id
}

/// The plumber after ingesting `p` addressed to `scope` at time `now_ms`.
pub open spec fn ingest_spec(
    v: PlumberView,
    p: ExtendedParticleView,
    f: Option<FunctionId>,
    scope: PeerScope,
    now_ms: u64,
) -> PlumberView {
    if now_ms >= p.particle.deadline() {
        PlumberView {
            events: v.events.push(EventView::Expired { particle_id: p.particle.id }),
            ..v
        }
    } else if p.verification is Err {
        PlumberView {
            events: v.events.push(
                EventView::SignatureFailed {
                    particle_id: p.particle.id,
                    err: p.verification->Err_0,
                },
            ),
            ..v
        }
    } else {
        match scope {
            PeerScope::Host => PlumberView {
                host_actors: put_in(
                    v.host_actors,
                    p,
                    f,
                    now_ms,
                    fresh_actor(p, PeerScope::Host, v.scopes.host_peer_id, None, now_ms),
                ),
                ..v
            },
            PeerScope::WorkerId(w) => {
                if denied(v, w, p.particle.init_peer_id) {
                    v
                } else {
                    let buckets = if has_bucket(v.worker_actors, w) {
                        v.worker_actors
                    } else {
                        v.worker_actors.push((w, Seq::empty()))
                    };
                    if !is_registered(v.workers, w) {
                        PlumberView { worker_actors: buckets, ..v }
                    } else {
                        let bi = bucket_index(buckets, w);
                        let fresh = fresh_actor(
                            p,
                            PeerScope::WorkerId(w),
                            w,
                            Some(deal_of(v.workers, w)),
                            now_ms,
                        );
                        PlumberView {
                            worker_actors: buckets.update(
                                bi,
                                (w, put_in(buckets[bi].1, p, f, now_ms, fresh)),
                            ),
                            ..v
                        }
                    }
                }
            },
        }
    }
}

/// Whether `ingest_spec` reaches the actor maps (and so wakes the plumber).
pub open spec fn reaches_actors(
    v: PlumberView,
    p: ExtendedParticleView,
    scope: PeerScope,
    now_ms: u64,
) -> bool {
    now_ms < p.particle.deadline() && p.verification is Ok && match scope {
        PeerScope::Host => true,
        PeerScope::WorkerId(w) => !denied(v, w, p.particle.init_peer_id),
    }
}

/// The pool that `scope` addresses, if there is one.
pub open spec fn pool_at(v: PlumberView, scope: PeerScope) -> Option<VmPoolView> {
    match scope {
        PeerScope::Host => Some(v.host_pool),
        PeerScope::WorkerId(w) => if has_pool(v.worker_pools, w) {
            Some(v.worker_pools[pool_index(v.worker_pools, w)].1)
        } else {
            None
        },
    }
}

/// `v` with the pool that `scope` addresses replaced by `p`.
pub open spec fn with_pool(v: PlumberView, scope: PeerScope, p: VmPoolView) -> PlumberView {
    match scope {
        PeerScope::Host => PlumberView { host_pool: p, ..v },
        PeerScope::WorkerId(w) => if has_pool(v.worker_pools, w) {
            PlumberView {
                worker_pools: v.worker_pools.update(pool_index(v.worker_pools, w), (w, p)),
                ..v
            }
        } else {
            v
        },
    }
}

/// The actor map that `scope` addresses, if there is one.
pub open spec fn actors_at(v: PlumberView, scope: PeerScope) -> Option<Seq<ActorView>> {
    match scope {
        PeerScope::Host => Some(v.host_actors),
        PeerScope::WorkerId(w) => if has_bucket(v.worker_actors, w) {
            Some(v.worker_actors[bucket_index(v.worker_actors, w)].1)
        } else {
            None
        },
    }
}

/// `v` with the actor map that `scope` addresses replaced by `s`.
pub open spec fn with_actors(v: PlumberView, scope: PeerScope, s: Seq<ActorView>) -> PlumberView {
    match scope {
        PeerScope::Host => PlumberView { host_actors: s, ..v },
        PeerScope::WorkerId(w) => if has_bucket(v.worker_actors, w) {
            PlumberView {
                worker_actors: v.worker_actors.update(bucket_index(v.worker_actors, w), (w, s)),
                ..v
            }
        } else {
            v
        },
    }
}

/// An actor with nothing to collect and nothing to start.
pub open spec fn quiet(a: ActorView) -> bool {
    !completed(a) && !ready(a)
}

/// A plumber with no outside activity to react to and no work outstanding:
/// no events, no actor to collect, start or clean up, no emptied worker map
/// to drop, and no interpreter instance to ask for.
pub open spec fn idle(v: PlumberView, now_ms: u64) -> bool {
    &&& v.events.len() == 0
    &&& forall|i: int| 0 <= i < v.host_actors.len() ==> quiet(#[trigger] v.host_actors[i])
    &&& workers_quiet(v)
    &&& cleanup_quiet(v, now_ms)
    &&& no_requests(v)
}

/// No worker actor has a step to collect or a step to start.
pub open spec fn workers_quiet(v: PlumberView) -> bool {
    forall|b: int, i: int|
        0 <= b < v.worker_actors.len() && 0 <= i < v.worker_actors[b].1.len() ==> quiet(
            #[trigger] v.worker_actors[b].1[i],
        )
}

/// A cleanup walk at `now_ms` would find nothing to do.
pub open spec fn cleanup_quiet(v: PlumberView, now_ms: u64) -> bool {
    v.cleanup_in_flight || {
        &&& forall|i: int| 0 <= i < v.host_actors.len() ==> !eligible(#[trigger] v.host_actors[i], now_ms)
        &&& forall|b: int, i: int|
            0 <= b < v.worker_actors.len() && 0 <= i < v.worker_actors[b].1.len() ==> !eligible(
                #[trigger] v.worker_actors[b].1[i],
                now_ms,
            )
        &&& forall|b: int|
            0 <= b < v.worker_actors.len() ==> (#[trigger] v.worker_actors[b]).1.len() > 0
                || has_pool(v.worker_pools, v.worker_actors[b].0)
    }
}

/// No pool asks for an instance to be built.
pub open spec fn no_requests(v: PlumberView) -> bool {
    &&& v.host_pool.requests.len() == 0
    &&& forall|i: int| 0 <= i < v.worker_pools.len() ==> (#[trigger] v.worker_pools[i]).1.requests.len() == 0
}

/// A particle that is expired when it arrives yields a `ParticleExpired`
/// event and touches no actor map.
pub proof fn lemma_expired_particle_creates_no_actor(
    v: PlumberView,
    p: ExtendedParticleView,
    f: Option<FunctionId>,
    scope: PeerScope,
    now_ms: u64,
)
    requires
        p.particle.deadline() < now_ms,
    ensures
        ingest_spec(v, p, f, scope, now_ms) == (PlumberView {
            events: v.events.push(EventView::Expired { particle_id: p.particle.id }),
            ..v
        }),
{
}

/// A particle whose signature does not verify (and that has not expired)
/// yields a `SignatureVerificationFailed` event and touches no actor map.
pub proof fn lemma_bad_signature_creates_no_actor(
    v: PlumberView,
    p: ExtendedParticleView,
    f: Option<FunctionId>,
    scope: PeerScope,
    now_ms: u64,
    err: Seq<char>,
)
    requires
        now_ms < p.particle.deadline(),
        p.verification == Err::<(), Seq<char>>(err),
    ensures
        ingest_spec(v, p, f, scope, now_ms) == (PlumberView {
            events: v.events.push(EventView::SignatureFailed { particle_id: p.particle.id, err }),
            ..v
        }),
{
}

/// In every actor of a sound plumber the mailbox holds no more particles than
/// were ingested and not yet taken out to run.
pub proof fn lemma_mailbox_bound(v: PlumberView)
    requires
        plumber_wf(v),
    ensures
        forall|i: int|
            0 <= i < v.host_actors.len() ==> (#[trigger] v.host_actors[i]).mailbox.len()
                <= v.host_actors[i].ingested - v.host_actors[i].started,
        forall|b: int, i: int|
            0 <= b < v.worker_actors.len() && 0 <= i < v.worker_actors[b].1.len() ==> (
            #[trigger] v.worker_actors[b].1[i]).mailbox.len() <= v.worker_actors[b].1[i].ingested
                - v.worker_actors[b].1[i].started,
{
    assert forall|b: int, i: int|
        0 <= b < v.worker_actors.len() && 0 <= i < v.worker_actors[b].1.len() implies (
        #[trigger] v.worker_actors[b].1[i]).mailbox.len() <= v.worker_actors[b].1[i].ingested
            - v.worker_actors[b].1[i].started by {
        assert(actors_wf(v.worker_actors[b].1));
    }
}

/// Ingesting the same valid particle twice on the host gives one actor,
/// under the particle's signature, with the particle twice in its mailbox.
pub proof fn lemma_same_particle_twice(v: PlumberView, p: ExtendedParticleView, now_ms: u64)
    requires
        plumber_wf(v),
        now_ms < p.particle.deadline(),
        p.verification is Ok,
        p.root_signature is Some,
        !has_key(v.host_actors, p.particle.signature),
    ensures
        ({
            let v2 = ingest_spec(
                ingest_spec(v, p, None, PeerScope::Host, now_ms),
                p,
                None,
                PeerScope::Host,
                now_ms,
            );
            let s = v2.host_actors;
            &&& s.len() == v.host_actors.len() + 1
            &&& has_key(s, p.particle.signature)
            &&& s[key_index(s, p.particle.signature)].mailbox == seq![p, p]
            &&& forall|i: int|
                0 <= i < s.len() && i != key_index(s, p.particle.signature) ==> (#[trigger] s[i]).key
                    != p.particle.signature
        }),
{
    let k = p.particle.signature;
    let n = v.host_actors.len();
    let fresh = fresh_actor(p, PeerScope::Host, v.scopes.host_peer_id, None, now_ms).unwrap();
    let s1 = v.host_actors.push(ingested(fresh, p, None, now_ms));
    assert(ingest_spec(v, p, None, PeerScope::Host, now_ms).host_actors == s1);
    assert(s1[n as int].key == k);
    assert(has_key(s1, k));
    assert(key_index(s1, k) == n) by {
        let j = key_index(s1, k);
        if j != n {
            assert(s1[j] == v.host_actors[j]);
        }
    }
    let s2 = s1.update(n as int, ingested(s1[n as int], p, None, now_ms));
    assert(ingest_spec(ingest_spec(v, p, None, PeerScope::Host, now_ms), p, None, PeerScope::Host, now_ms).host_actors == s2);
    assert(s2[n as int].key == k);
    assert(has_key(s2, k));
    assert(key_index(s2, k) == n) by {
        let j = key_index(s2, k);
        if j != n {
            assert(s2[j] == v.host_actors[j]);
        }
    }
    assert(s2[n as int].mailbox =~= seq![p, p]);
    assert forall|i: int| 0 <= i < s2.len() && i != key_index(s2, k) implies (#[trigger] s2[i]).key != k by {
        assert(s2[i] == v.host_actors[i]);
    }
}

/// `v` after ingesting `p`, with no service function, into each scope of `scopes`, in order.
pub open spec fn ingest_scopes(v: PlumberView, p: ExtendedParticleView, scopes: Seq<PeerScope>, now_ms: u64) -> PlumberView
    decreases scopes.len(),
{
    if scopes.len() == 0 {
        v
    } else {
        ingest_spec(ingest_scopes(v, p, scopes.drop_last(), now_ms), p, None, scopes.last(), now_ms)
    }
}

/// `v` after ingesting again every local routing effect of `effects`, in order.
pub open spec fn reingest_spec(v: PlumberView, effects: Seq<(ExtendedParticleView, Seq<PeerScope>)>, now_ms: u64) -> PlumberView
    decreases effects.len(),
{
    if effects.len() == 0 {
        v
    } else {
        let e = effects.last();
        ingest_scopes(reingest_spec(v, effects.drop_last(), now_ms), e.0, e.1, now_ms)
    }
}

/// Ingesting again touches no pool, no registry entry and no cleanup state.
pub proof fn lemma_reingest_keeps(v: PlumberView, effects: Seq<(ExtendedParticleView, Seq<PeerScope>)>, now_ms: u64)
    ensures
        reingest_spec(v, effects, now_ms).host_pool == v.host_pool,
        reingest_spec(v, effects, now_ms).worker_pools == v.worker_pools,
        reingest_spec(v, effects, now_ms).workers == v.workers,
        reingest_spec(v, effects, now_ms).scopes == v.scopes,
        reingest_spec(v, effects, now_ms).cleanup_in_flight == v.cleanup_in_flight,
    decreases effects.len(),
{
    if effects.len() > 0 {
        lemma_reingest_keeps(v, effects.drop_last(), now_ms);
        let e = effects.last();
        lemma_ingest_scopes_keeps(reingest_spec(v, effects.drop_last(), now_ms), e.0, e.1, now_ms);
    }
}

proof fn lemma_ingest_scopes_keeps(v: PlumberView, p: ExtendedParticleView, scopes: Seq<PeerScope>, now_ms: u64)
    ensures
        ingest_scopes(v, p, scopes, now_ms).host_pool == v.host_pool,
        ingest_scopes(v, p, scopes, now_ms).worker_pools == v.worker_pools,
        ingest_scopes(v, p, scopes, now_ms).workers == v.workers,
        ingest_scopes(v, p, scopes, now_ms).scopes == v.scopes,
        ingest_scopes(v, p, scopes, now_ms).cleanup_in_flight == v.cleanup_in_flight,
    decreases scopes.len(),
{
    if scopes.len() > 0 {
        lemma_ingest_scopes_keeps(v, p, scopes.drop_last(), now_ms);
    }
}

/// The events that remote routing effects become.
pub open spec fn remote_events(r: Seq<(ExtendedParticleView, Seq<PeerId>)>) -> Seq<EventView> {
    r.map_values(|e: (ExtendedParticleView, Seq<PeerId>)| EventView::Remote { particle: e.0, next_peers: e.1 })
}

/// A worker's actor map after collecting finished steps, which happens only
/// where the worker has a pool.
pub open spec fn collect_bucket(b: (WorkerId, Seq<ActorView>), pools: Seq<(WorkerId, VmPoolView)>) -> (WorkerId, Seq<ActorView>) {
    if has_pool(pools, b.0) {
        (b.0, b.1.map_values(|a: ActorView| collected(a)))
    } else {
        b
    }
}

/// The remote routing effects of the workers' finished steps, in order.
pub open spec fn workers_remote_of(
    bs: Seq<(WorkerId, Seq<ActorView>)>,
    pools: Seq<(WorkerId, VmPoolView)>,
    scopes: PeerScopes,
    ws: Seq<WorkerInfoView>,
) -> Seq<(ExtendedParticleView, Seq<PeerId>)>
    decreases bs.len(),
{
    if bs.len() == 0 {
        Seq::empty()
    } else {
        workers_remote_of(bs.drop_last(), pools, scopes, ws) + if has_pool(pools, bs.last().0) {
            remote_of(bs.last().1, scopes, ws)
        } else {
            Seq::empty()
        }
    }
}

/// The local routing effects of the workers' finished steps, in order.
pub open spec fn workers_local_of(
    bs: Seq<(WorkerId, Seq<ActorView>)>,
    pools: Seq<(WorkerId, VmPoolView)>,
    scopes: PeerScopes,
    ws: Seq<WorkerInfoView>,
) -> Seq<(ExtendedParticleView, Seq<PeerScope>)>
    decreases bs.len(),
{
    if bs.len() == 0 {
        Seq::empty()
    } else {
        workers_local_of(bs.drop_last(), pools, scopes, ws) + if has_pool(pools, bs.last().0) {
            local_of(bs.last().1, scopes, ws)
        } else {
            Seq::empty()
        }
    }
}

/// Two pool lists name the same workers, in the same order.
pub open spec fn same_pool_ids(a: Seq<(WorkerId, VmPoolView)>, b: Seq<(WorkerId, VmPoolView)>) -> bool {
    a.len() == b.len() && forall|i: int| 0 <= i < a.len() ==> (#[trigger] a[i]).0 == b[i].0
}

/// Pool lists that name the same workers agree on which workers have a pool, and where.
pub proof fn lemma_same_pool_ids(a: Seq<(WorkerId, VmPoolView)>, b: Seq<(WorkerId, VmPoolView)>, w: WorkerId)
    requires
        same_pool_ids(a, b),
        pools_unique(a),
    ensures
        has_pool(a, w) == has_pool(b, w),
        pools_unique(b),
        has_pool(a, w) ==> pool_index(b, w) == pool_index(a, w),
{
    if has_pool(a, w) {
        let i = pool_index(a, w);
        assert(b[i].0 == w);
        let k = pool_index(b, w);
        assert(a[k].0 == w);
        if k != i {
            if k < i {
                assert(a[k].0 != a[i].0);
            } else {
                assert(a[i].0 != a[k].0);
            }
        }
    }
    if has_pool(b, w) {
        let k = pool_index(b, w);
        assert(a[k].0 == w);
    }
    assert forall|i: int, j: int| 0 <= i < j < b.len() implies (#[trigger] b[i]).0 != (#[trigger] b[j]).0 by {
        assert(a[i].0 != a[j].0);
    }
}

/// One cleanup walk over the workers' actor maps, in order, with room for
/// `room` keys: the maps kept, and the keys handed out. A map that the walk
/// leaves empty is dropped where its worker has no pool.
pub open spec fn bucket_walk(
    bs: Seq<(WorkerId, Seq<ActorView>)>,
    room: nat,
    now_ms: u64,
    pools: Seq<(WorkerId, VmPoolView)>,
) -> (Seq<(WorkerId, Seq<ActorView>)>, Seq<CleanupKeyView>)
    decreases bs.len(),
{
    if bs.len() == 0 {
        (Seq::empty(), Seq::empty())
    } else {
        let (kb, ks) = bucket_walk(bs.drop_last(), room, now_ms, pools);
        let b = bs.last();
        let (k2, ks2) = cleanup_pass(b.1, (room - ks.len()) as nat, now_ms);
        if k2.len() > 0 || has_pool(pools, b.0) {
            (kb.push((b.0, k2)), ks + ks2)
        } else {
            (kb, ks + ks2)
        }
    }
}

/// A walk over the workers' maps hands out no more keys than it has room for.
pub proof fn lemma_bucket_walk_room(
    bs: Seq<(WorkerId, Seq<ActorView>)>,
    room: nat,
    now_ms: u64,
    pools: Seq<(WorkerId, VmPoolView)>,
)
    ensures
        bucket_walk(bs, room, now_ms, pools).1.len() <= room,
    decreases bs.len(),
{
    if bs.len() > 0 {
        lemma_bucket_walk_room(bs.drop_last(), room, now_ms, pools);
        let ks = bucket_walk(bs.drop_last(), room, now_ms, pools).1;
        lemma_cleanup_room(bs.last().1, (room - ks.len()) as nat, now_ms);
    }
}

/// The plumber after the cleanup step of a tick at `now_ms`, and the keys of
/// the batch handed out. Nothing happens while a batch is running; otherwise
/// the host map is walked, then the workers' maps while there is room left,
/// and a batch is running afterwards exactly when it has keys.
pub open spec fn cleanup_spec(v: PlumberView, now_ms: u64) -> (PlumberView, Seq<CleanupKeyView>) {
    if v.cleanup_in_flight {
        (v, Seq::empty())
    } else {
        let (h, hk) = cleanup_pass(v.host_actors, MAX_CLEANUP_KEYS_SIZE as nat, now_ms);
        let (wb, wk) = if hk.len() >= MAX_CLEANUP_KEYS_SIZE {
            (v.worker_actors, Seq::empty())
        } else {
            bucket_walk(
                v.worker_actors,
                (MAX_CLEANUP_KEYS_SIZE - hk.len()) as nat,
                now_ms,
                v.worker_pools,
            )
        };
        (
            PlumberView {
                host_actors: h,
                worker_actors: wb,
                cleanup_in_flight: hk.len() + wk.len() > 0,
                ..v
            },
            hk + wk,
        )
    }
}

/// The number of free instances of a pool.
pub open spec fn free_count(p: VmPoolView) -> nat {
    crate::vm_pool::count_slots(p.slots, crate::vm_pool::VmSlot::Free)
}

/// The steps that the start step started over all the workers' maps, in order.
pub open spec fn workers_started_executions(
    o: Seq<(WorkerId, Seq<ActorView>)>,
    f: Seq<(WorkerId, Seq<ActorView>)>,
) -> Seq<ExecutionView>
    decreases o.len(),
{
    if o.len() == 0 || f.len() != o.len() {
        Seq::empty()
    } else {
        workers_started_executions(o.drop_last(), f.drop_last()) + started_executions(
            o.last().1,
            f.last().1,
        )
    }
}

/// A worker's actor map before (`o`) and after (`f`) the start step of a
/// tick, with the pools before (`po`) and after (`pf`): a start walk where
/// the worker has a pool, no change where it has none.
pub open spec fn start_bucket(
    o: (WorkerId, Seq<ActorView>),
    f: (WorkerId, Seq<ActorView>),
    po: Seq<(WorkerId, VmPoolView)>,
    pf: Seq<(WorkerId, VmPoolView)>,
) -> bool {
    &&& f.0 == o.0
    &&& if has_pool(po, o.0) {
        let i = pool_index(po, o.0);
        start_walk(o.1, f.1, free_count(po[i].1), free_count(pf[i].1))
    } else {
        f.1 == o.1
    }
}

/// The instances that a pool of `scope` asks for, tagged with the scope.
pub open spec fn tagged(scope: PeerScope, ids: Seq<usize>) -> Seq<(PeerScope, usize)> {
    ids.map_values(|id: usize| (scope, id))
}

/// The instances that the workers' pools ask for, pool by pool.
pub open spec fn worker_requests(pools: Seq<(WorkerId, VmPoolView)>) -> Seq<(PeerScope, usize)>
    decreases pools.len(),
{
    if pools.len() == 0 {
        Seq::empty()
    } else {
        worker_requests(pools.drop_last()) + tagged(PeerScope::WorkerId(pools.last().0), pools.last().1.requests)
    }
}

/// Every instance that the pools of `v` ask for: the host's first, then each worker's.
pub open spec fn requests_of(v: PlumberView) -> Seq<(PeerScope, usize)> {
    tagged(PeerScope::Host, v.host_pool.requests) + worker_requests(v.worker_pools)
}

/// A pool with no instance left to ask for.
pub open spec fn cleared(p: VmPoolView) -> VmPoolView {
    VmPoolView { requests: Seq::empty(), ..p }
}

/// `v` once every pool's requests were handed out.
pub open spec fn without_requests(v: PlumberView) -> PlumberView {
    PlumberView {
        host_pool: cleared(v.host_pool),
        worker_pools: v.worker_pools.map_values(|p: (WorkerId, VmPoolView)| (p.0, cleared(p.1))),
        ..v
    }
}

/// `v` with the remote routing effects `r` queued as events.
pub open spec fn publish(v: PlumberView, r: Seq<(ExtendedParticleView, Seq<PeerId>)>) -> PlumberView {
    PlumberView { events: v.events + remote_events(r), ..v }
}

/// The workers' pools after the instances of their finished steps came back.
pub open spec fn release_workers(
    pools: Seq<(WorkerId, VmPoolView)>,
    bs: Seq<(WorkerId, Seq<ActorView>)>,
) -> Seq<(WorkerId, VmPoolView)> {
    pools.map_values(
        |p: (WorkerId, VmPoolView)|
            if has_bucket(bs, p.0) {
                (p.0, release_all(p.1, bs[bucket_index(bs, p.0)].1))
            } else {
                p
            },
    )
}

/// `v` after collecting the finished steps of every actor that has a pool.
pub open spec fn collect_spec(v: PlumberView) -> PlumberView {
    PlumberView {
        host_actors: v.host_actors.map_values(|a: ActorView| collected(a)),
        worker_actors: v.worker_actors.map_values(
            |b: (WorkerId, Seq<ActorView>)| collect_bucket(b, v.worker_pools),
        ),
        host_pool: release_all(v.host_pool, v.host_actors),
        worker_pools: release_workers(v.worker_pools, v.worker_actors),
        ..v
    }
}

/// The remote routing effects of the steps that a tick collects from `v`.
pub open spec fn tick_remote(v: PlumberView) -> Seq<(ExtendedParticleView, Seq<PeerId>)> {
    remote_of(v.host_actors, v.scopes, v.workers) + workers_remote_of(
        v.worker_actors,
        v.worker_pools,
        v.scopes,
        v.workers,
    )
}

/// The local routing effects of the steps that a tick collects from `v`.
pub open spec fn tick_local(v: PlumberView) -> Seq<(ExtendedParticleView, Seq<PeerScope>)> {
    local_of(v.host_actors, v.scopes, v.workers) + workers_local_of(
        v.worker_actors,
        v.worker_pools,
        v.scopes,
        v.workers,
    )
}

/// `s` is `k` after the start step of a tick: a start walk over the host map
/// and over the map of every worker with a pool; nothing else changes.
pub open spec fn start_spec(k: PlumberView, s: PlumberView) -> bool {
    &&& s == PlumberView {
        host_actors: s.host_actors,
        host_pool: s.host_pool,
        worker_actors: s.worker_actors,
        worker_pools: s.worker_pools,
        ..k
    }
    &&& start_walk(k.host_actors, s.host_actors, free_count(k.host_pool), free_count(s.host_pool))
    &&& s.host_pool.requests == k.host_pool.requests
    &&& same_pool_ids(k.worker_pools, s.worker_pools)
    &&& s.worker_actors.len() == k.worker_actors.len()
    &&& forall|b: int|
        0 <= b < k.worker_actors.len() ==> start_bucket(
            #[trigger] k.worker_actors[b],
            s.worker_actors[b],
            k.worker_pools,
            s.worker_pools,
        )
    &&& forall|j: int|
        0 <= j < k.worker_pools.len() ==> (#[trigger] s.worker_pools[j]).1.requests
            == k.worker_pools[j].1.requests
}

/// When no cleanup batch is running and the host has no more expired idle
/// actors than a batch holds, the cleanup step of a tick removes every one of
/// them, hands out each one's key once, and leaves no host actor that a later
/// step would clean up again.
pub proof fn lemma_host_cleanup_complete(v: PlumberView, now_ms: u64)
    requires
        !v.cleanup_in_flight,
        crate::schedule::n_eligible(v.host_actors, now_ms) <= MAX_CLEANUP_KEYS_SIZE,
    ensures
        cleanup_spec(v, now_ms).0.host_actors == crate::schedule::kept_of(v.host_actors, now_ms),
        cleanup_spec(v, now_ms).1.subrange(0, crate::schedule::n_eligible(v.host_actors, now_ms) as int)
            == crate::schedule::expired_keys(v.host_actors, now_ms),
        forall|i: int|
            0 <= i < cleanup_spec(v, now_ms).0.host_actors.len() ==> !eligible(
                #[trigger] cleanup_spec(v, now_ms).0.host_actors[i],
                now_ms,
            ),
{
    crate::schedule::lemma_cleanup_complete(v.host_actors, MAX_CLEANUP_KEYS_SIZE as nat, now_ms);
    let hk = crate::schedule::expired_keys(v.host_actors, now_ms);
    let keys = cleanup_spec(v, now_ms).1;
    assert(keys.subrange(0, hk.len() as int) =~= hk);
}

/// The particles waiting in all the mailboxes of `s`.
pub open spec fn mailbox_total(s: Seq<ActorView>) -> nat
    decreases s.len(),
{
    if s.len() == 0 {
        0
    } else {
        mailbox_total(s.drop_last()) + s.last().mailbox.len()
    }
}

/// `n`, or `u64::MAX` where `n` does not fit.
pub open spec fn saturate(n: nat) -> u64 {
    if n > u64::MAX {
        u64::MAX
    } else {
        n as u64
    }
}

/// The gauges of the host map, then of each worker map whose worker has a pool, in order.
pub open spec fn gauges_spec(v: PlumberView) -> Seq<(PeerScope, u64, usize)> {
    seq![(PeerScope::Host, saturate(mailbox_total(v.host_actors)), v.host_actors.len() as usize)]
        + worker_gauges(v.worker_actors, v.worker_pools)
}

/// The gauges of each worker map whose worker has a pool, in order.
pub open spec fn worker_gauges(bs: Seq<(WorkerId, Seq<ActorView>)>, pools: Seq<(WorkerId, VmPoolView)>) -> Seq<(PeerScope, u64, usize)>
    decreases bs.len(),
{
    if bs.len() == 0 {
        Seq::empty()
    } else {
        let r = worker_gauges(bs.drop_last(), pools);
        let b = bs.last();
        if has_pool(pools, b.0) {
            r.push((PeerScope::WorkerId(b.0), saturate(mailbox_total(b.1)), b.1.len() as usize))
        } else {
            r
        }
    }
}

/// No two worker actor maps belong to the same worker.
pub open spec fn buckets_unique(s: Seq<(WorkerId, Seq<ActorView>)>) -> bool {
    forall|i: int, j: int| 0 <= i < j < s.len() ==> (#[trigger] s[i]).0 != (#[trigger] s[j]).0
}

/// The position of worker `w`'s pool.
pub open spec fn pool_index(s: Seq<(WorkerId, VmPoolView)>, w: WorkerId) -> int {
    choose|i: int| 0 <= i < s.len() && (#[trigger] s[i]).0 == w
}

/// No two pools belong to the same worker.
pub open spec fn pools_unique(s: Seq<(WorkerId, VmPoolView)>) -> bool {
    forall|i: int, j: int| 0 <= i < j < s.len() ==> (#[trigger] s[i]).0 != (#[trigger] s[j]).0
}

/// Keys unique in every map, worker ids unique in every list, pools sound.
pub open spec fn plumber_wf(v: PlumberView) -> bool {
    &&& actors_wf(v.host_actors)
    &&& buckets_unique(v.worker_actors)
    &&& forall|i: int| 0 <= i < v.worker_actors.len() ==> actors_wf((#[trigger] v.worker_actors[i]).1)
    &&& pools_unique(v.worker_pools)
    &&& workers_unique(v.workers)
}

} // verus!
