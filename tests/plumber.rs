use aquamarine::actor::AvmOutcome;
use aquamarine::deadline::Deadline;
use aquamarine::particle::{AquamarineApiError, ExtendedParticle, Particle, PeerScope};
use aquamarine::plumber::{Plumber, PlumberPoll, TickActions};
use aquamarine::workers::PeerScopes;
use aquamarine::schedule::MAX_CLEANUP_KEYS_SIZE;
use aquamarine::vm_pool::VmPool;

const HOST: u64 = 1;
const MANAGER: u64 = 2;
const T: u64 = 1_700_000_000_000;

fn scopes() -> PeerScopes {
    PeerScopes { host_peer_id: HOST, management_peer_id: MANAGER, builtins_management_peer_id: 3 }
}

fn plumber(capacity: usize) -> Plumber {
    Plumber::new(VmPool::new(capacity), scopes())
}

fn particle_from(init: u64, ts: u64, ttl: u32, sig: Vec<u8>) -> ExtendedParticle {
    let particle = Particle {
        id: format!("particle-{:?}", sig),
        init_peer_id: init,
        timestamp_ms: ts,
        ttl_ms: ttl,
        signature: sig,
        script: "(null)".to_string(),
        data: vec![],
    };
    ExtendedParticle::new(particle, Ok(()), Some(vec![9, 9, 9]))
}

fn particle(ts: u64, ttl: u32) -> ExtendedParticle {
    particle_from(50, ts, ttl, vec![7, 7, 7])
}

fn pending(p: PlumberPoll) -> TickActions {
    match p {
        PlumberPoll::Pending(t) => t,
        PlumberPoll::Ready(e) => panic!("expected a pending tick, got {:?}", e),
    }
}

/// Polls once and builds every instance that the tick asks for.
fn build_vms(plumber: &mut Plumber, now: u64) -> TickActions {
    let t = pending(plumber.poll(now));
    for (scope, vm_id) in &t.vm_requests {
        assert!(plumber.vm_created(*scope, *vm_id));
    }
    t
}

fn done(next_peers: Vec<u64>) -> AvmOutcome {
    AvmOutcome { success: true, new_data: vec![42], next_peers, vm_lost: false }
}

#[test]
fn ignore_expired() {
    let mut plumber = plumber(1);
    let now = T;
    let p = particle(now - 100, 99);
    let deadline = Deadline::new(p.particle.timestamp_ms, p.particle.ttl_ms);
    assert!(deadline.is_expired(now));
    let id = p.particle.id.clone();

    plumber.ingest(p, None, PeerScope::Host, now);
    assert_eq!(plumber.host_actors_len(), 0);

    let poll = plumber.poll(now + 1000);
    match poll {
        PlumberPoll::Ready(Err(AquamarineApiError::ParticleExpired { particle_id })) => {
            assert_eq!(particle_id, id)
        }
        unexpected => panic!(
            "Expected Poll::Ready(Err(AquamarineApiError::ParticleExpired)), got {:?}",
            unexpected
        ),
    }
    assert_eq!(plumber.host_actors_len(), 0);
}

#[test]
fn remove_expired() {
    let mut plumber = plumber(1);
    let now = T;
    let p = particle(now, 1);
    let sig = p.particle.signature.clone();
    let deadline = Deadline::new(p.particle.timestamp_ms, p.particle.ttl_ms);
    assert!(!deadline.is_expired(now));

    plumber.ingest(p, None, PeerScope::Host, now);
    assert_eq!(plumber.host_actors_len(), 1);
    let first = build_vms(&mut plumber, now);
    assert_eq!(first.vm_requests, vec![(PeerScope::Host, 0)]);
    assert_eq!(plumber.host_actors_len(), 1);
    assert_eq!(plumber.host_free_vms(), 1);

    let t = pending(plumber.poll(now));
    assert_eq!(t.executions.len(), 1);
    assert_eq!(plumber.host_free_vms(), 0);
    assert!(plumber.complete(PeerScope::Host, &sig, done(vec![])));
    // pool is single VM, wait until VM is free
    loop {
        if plumber.host_free_vms() == 1 {
            break;
        }
        pending(plumber.poll(now));
    }

    let t = pending(plumber.poll(now + 2));
    assert_eq!(plumber.host_actors_len(), 0);
    assert_eq!(t.cleanup_keys.len(), 1);
    assert_eq!(t.cleanup_keys[0].signature, sig);
    assert_eq!(t.cleanup_keys[0].peer_id, HOST);
    assert_eq!(t.cleanup_keys[0].deal_id, "");
}

#[test]
fn happy_host_path() {
    let mut plumber = plumber(1);
    let p = particle_from(50, T, 1000, vec![5, 5]);
    let sig = p.particle.signature.clone();
    assert!(plumber.ingest(p, None, PeerScope::Host, T));
    assert_eq!(plumber.mailbox_size(PeerScope::Host, &sig), Some(1));
    build_vms(&mut plumber, T);
    let t = pending(plumber.poll(T));
    assert_eq!(t.executions.len(), 1);
    let e = &t.executions[0];
    assert_eq!(e.key, sig);
    assert_eq!(e.vm_id, 0);
    assert_eq!(e.particle_token, bs58::encode(vec![9u8, 9, 9]).into_string());
    assert_eq!(plumber.is_executing(PeerScope::Host, &sig), Some(true));
    assert!(plumber.complete(PeerScope::Host, &sig, done(vec![])));
    pending(plumber.poll(T + 10));
    assert_eq!(plumber.host_free_vms(), 1);
    assert_eq!(plumber.host_actors_len(), 1);
    pending(plumber.poll(T + 1002));
    assert_eq!(plumber.host_actors_len(), 0);
}

#[test]
fn signature_failure_is_reported() {
    let mut plumber = plumber(1);
    let mut p = particle(T, 1000);
    p.verification = Err("bad signature".to_string());
    let id = p.particle.id.clone();
    assert!(!plumber.ingest(p, None, PeerScope::Host, T));
    assert_eq!(plumber.host_actors_len(), 0);
    match plumber.poll(T) {
        PlumberPoll::Ready(Err(AquamarineApiError::SignatureVerificationFailed { particle_id, err })) => {
            assert_eq!(particle_id, id);
            assert_eq!(err, "bad signature");
        }
        unexpected => panic!("unexpected {:?}", unexpected),
    }
    assert_eq!(plumber.host_actors_len(), 0);
}

#[test]
fn worker_inactive_non_manager() {
    let mut plumber = plumber(1);
    plumber.register_worker(100, "deal-1".to_string(), false);
    plumber.create_worker_pool(100, 1);
    let p = particle_from(50, T, 1000, vec![1]);
    assert!(!plumber.ingest(p, None, PeerScope::WorkerId(100), T));
    assert_eq!(plumber.worker_actors_len(100), None);
    assert_eq!(plumber.events_len(), 0);
}

#[test]
fn worker_inactive_host_initiator() {
    let mut plumber = plumber(1);
    plumber.register_worker(100, "deal-1".to_string(), false);
    plumber.create_worker_pool(100, 1);
    let p = particle_from(HOST, T, 1000, vec![1]);
    assert!(plumber.ingest(p, None, PeerScope::WorkerId(100), T));
    assert_eq!(plumber.worker_actors_len(100), Some(1));
}

#[test]
fn worker_inactive_manager_initiator() {
    let mut plumber = plumber(1);
    plumber.register_worker(100, "deal-1".to_string(), false);
    let p = particle_from(MANAGER, T, 1000, vec![1]);
    assert!(plumber.ingest(p, None, PeerScope::WorkerId(100), T));
    assert_eq!(plumber.worker_actors_len(100), Some(1));
}

#[test]
fn unknown_worker_gets_no_actor() {
    let mut plumber = plumber(1);
    let p = particle_from(HOST, T, 1000, vec![1]);
    assert!(plumber.ingest(p, None, PeerScope::WorkerId(100), T));
    assert_eq!(plumber.worker_actors_len(100), Some(0));
    pending(plumber.poll(T));
    assert_eq!(plumber.worker_actors_len(100), None);
}

#[test]
fn missing_root_signature_gets_no_actor() {
    let mut plumber = plumber(1);
    let mut p = particle(T, 1000);
    p.root_signature = None;
    assert!(plumber.ingest(p, None, PeerScope::Host, T));
    assert_eq!(plumber.host_actors_len(), 0);
    assert_eq!(plumber.events_len(), 0);
}

#[test]
fn vm_pool_saturation() {
    let mut plumber = plumber(1);
    let a = particle_from(50, T, 1000, vec![1]);
    let b = particle_from(50, T, 1000, vec![2]);
    plumber.ingest(a, None, PeerScope::Host, T);
    plumber.ingest(b, None, PeerScope::Host, T);
    build_vms(&mut plumber, T);
    let t = pending(plumber.poll(T));
    assert_eq!(t.executions.len(), 1);
    assert_eq!(t.executions[0].key, vec![1]);
    let t = pending(plumber.poll(T));
    assert_eq!(t.executions.len(), 0);
    assert_eq!(plumber.mailbox_size(PeerScope::Host, &vec![2]), Some(1));
    assert!(plumber.complete(PeerScope::Host, &vec![1], done(vec![])));
    let t = pending(plumber.poll(T));
    assert_eq!(t.executions.len(), 1);
    assert_eq!(t.executions[0].key, vec![2]);
}

#[test]
fn pool_capacity_bounds_starts_per_tick() {
    let mut plumber = plumber(2);
    for s in 1u8..=3 {
        plumber.ingest(particle_from(50, T, 1000, vec![s]), None, PeerScope::Host, T);
    }
    build_vms(&mut plumber, T);
    let t = pending(plumber.poll(T));
    assert_eq!(t.executions.len(), 2);
    assert_eq!(plumber.host_free_vms(), 0);
    assert_eq!(plumber.mailbox_size(PeerScope::Host, &vec![3]), Some(1));
}

#[test]
fn local_reingest_fan_out() {
    let mut plumber = plumber(1);
    let worker = 100;
    let remote_peer = 77;
    plumber.register_worker(worker, "deal-1".to_string(), true);
    plumber.create_worker_pool(worker, 1);
    let p = particle_from(50, T, 1000, vec![4, 2]);
    let sig = p.particle.signature.clone();
    plumber.ingest(p, None, PeerScope::Host, T);
    build_vms(&mut plumber, T);
    let t = pending(plumber.poll(T));
    assert_eq!(t.executions.len(), 1);
    assert!(plumber.complete(PeerScope::Host, &sig, done(vec![worker, remote_peer])));
    pending(plumber.poll(T));
    assert_eq!(plumber.mailbox_size(PeerScope::WorkerId(worker), &sig), Some(1));
    assert_eq!(plumber.events_len(), 1);
    match plumber.poll(T) {
        PlumberPoll::Ready(Ok(effects)) => {
            assert_eq!(effects.next_peers, vec![remote_peer]);
            assert_eq!(effects.particle.particle.data, vec![42]);
        }
        unexpected => panic!("unexpected {:?}", unexpected),
    }
}

#[test]
fn same_particle_twice() {
    let mut plumber = plumber(1);
    let p = particle(T, 1000);
    let sig = p.particle.signature.clone();
    plumber.ingest(p.duplicate(), None, PeerScope::Host, T);
    plumber.ingest(p, None, PeerScope::Host, T);
    assert_eq!(plumber.host_actors_len(), 1);
    assert_eq!(plumber.mailbox_size(PeerScope::Host, &sig), Some(2));
    build_vms(&mut plumber, T);
    let t = pending(plumber.poll(T));
    assert_eq!(t.executions.len(), 1);
    assert_eq!(plumber.mailbox_size(PeerScope::Host, &sig), Some(1));
    assert!(plumber.complete(PeerScope::Host, &sig, done(vec![])));
    let t = pending(plumber.poll(T));
    assert_eq!(t.executions.len(), 1);
    assert_eq!(plumber.mailbox_size(PeerScope::Host, &sig), Some(0));
}

#[test]
fn function_override_reaches_execution() {
    let mut plumber = plumber(1);
    let p = particle(T, 1000);
    plumber.ingest(p, Some(11), PeerScope::Host, T);
    build_vms(&mut plumber, T);
    let t = pending(plumber.poll(T));
    assert_eq!(t.executions[0].function, Some(11));
}

#[test]
fn cleanup_is_capped_per_tick() {
    let mut plumber = plumber(0);
    let n = MAX_CLEANUP_KEYS_SIZE + 6;
    for i in 0..n {
        let sig = vec![(i % 256) as u8, (i / 256) as u8];
        plumber.ingest(particle_from(50, T, 10, sig), None, PeerScope::Host, T);
    }
    assert_eq!(plumber.host_actors_len(), n);
    let t = pending(plumber.poll(T + 20));
    assert_eq!(t.cleanup_keys.len(), 1024);
    assert_eq!(plumber.host_actors_len(), 6);
    assert!(plumber.is_cleanup_in_flight());
    let t = pending(plumber.poll(T + 20));
    assert_eq!(t.cleanup_keys.len(), 0);
    assert_eq!(plumber.host_actors_len(), 6);
    plumber.cleanup_finished();
    let t = pending(plumber.poll(T + 20));
    assert_eq!(t.cleanup_keys.len(), 6);
    assert_eq!(plumber.host_actors_len(), 0);
}

#[test]
fn executing_actor_is_not_cleaned_up() {
    let mut plumber = plumber(1);
    let p = particle(T, 5);
    let sig = p.particle.signature.clone();
    plumber.ingest(p, None, PeerScope::Host, T);
    build_vms(&mut plumber, T);
    pending(plumber.poll(T));
    let t = pending(plumber.poll(T + 100));
    assert_eq!(t.cleanup_keys.len(), 0);
    assert_eq!(plumber.host_actors_len(), 1);
    assert!(plumber.complete(PeerScope::Host, &sig, done(vec![])));
    let t = pending(plumber.poll(T + 100));
    assert_eq!(t.cleanup_keys.len(), 1);
    assert_eq!(plumber.host_actors_len(), 0);
}

#[test]
fn idle_poll_changes_nothing() {
    let mut plumber = plumber(1);
    build_vms(&mut plumber, T);
    for _ in 0..3 {
        let t = pending(plumber.poll(T));
        assert!(t.executions.is_empty());
        assert!(t.vm_requests.is_empty());
        assert!(t.cleanup_keys.is_empty());
        assert_eq!(plumber.host_free_vms(), 1);
        assert_eq!(plumber.events_len(), 0);
    }
}

#[test]
fn lost_vm_is_rebuilt() {
    let mut plumber = plumber(1);
    let p = particle(T, 1000);
    let sig = p.particle.signature.clone();
    plumber.ingest(p, None, PeerScope::Host, T);
    build_vms(&mut plumber, T);
    pending(plumber.poll(T));
    let lost = AvmOutcome { success: false, new_data: vec![], next_peers: vec![], vm_lost: true };
    assert!(plumber.complete(PeerScope::Host, &sig, lost));
    let t = pending(plumber.poll(T));
    assert_eq!(t.vm_requests, vec![(PeerScope::Host, 0)]);
    assert_eq!(plumber.host_free_vms(), 0);
    assert!(plumber.vm_created(PeerScope::Host, 0));
    assert_eq!(plumber.host_free_vms(), 1);
}

#[test]
fn failed_vm_build_is_asked_again() {
    let mut plumber = plumber(1);
    let t = pending(plumber.poll(T));
    assert_eq!(t.vm_requests, vec![(PeerScope::Host, 0)]);
    assert!(plumber.vm_creation_failed(PeerScope::Host, 0));
    let t = pending(plumber.poll(T));
    assert_eq!(t.vm_requests, vec![(PeerScope::Host, 0)]);
}

#[test]
fn removed_worker_pool_stops_progress() {
    let mut plumber = plumber(0);
    plumber.register_worker(100, "deal-9".to_string(), true);
    plumber.create_worker_pool(100, 1);
    let p = particle_from(50, T, 1000, vec![8]);
    let sig = p.particle.signature.clone();
    plumber.ingest(p, None, PeerScope::WorkerId(100), T);
    let t = build_vms(&mut plumber, T);
    assert_eq!(t.vm_requests, vec![(PeerScope::WorkerId(100), 0)]);
    let t = pending(plumber.poll(T));
    assert_eq!(t.executions.len(), 1);
    assert_eq!(t.executions[0].deal_id, Some("deal-9".to_string()));
    assert!(plumber.complete(PeerScope::WorkerId(100), &sig, done(vec![])));
    plumber.remove_worker_pool(100);
    pending(plumber.poll(T));
    assert_eq!(plumber.is_executing(PeerScope::WorkerId(100), &sig), Some(true));
    let t = pending(plumber.poll(T + 2000));
    assert_eq!(t.cleanup_keys.len(), 0);
    assert_eq!(plumber.worker_actors_len(100), Some(1));
}

#[test]
fn complete_without_step_is_refused() {
    let mut plumber = plumber(1);
    assert!(!plumber.complete(PeerScope::Host, &vec![1], done(vec![])));
    plumber.ingest(particle(T, 1000), None, PeerScope::Host, T);
    assert!(!plumber.complete(PeerScope::Host, &vec![7, 7, 7], done(vec![])));
}

#[test]
fn mailbox_is_fifo() {
    let mut plumber = plumber(1);
    let mut first = particle(T, 1000);
    first.particle.id = "first".to_string();
    let mut second = particle(T, 1000);
    second.particle.id = "second".to_string();
    let sig = first.particle.signature.clone();
    plumber.ingest(first, None, PeerScope::Host, T);
    plumber.ingest(second, None, PeerScope::Host, T);
    build_vms(&mut plumber, T);
    let t = pending(plumber.poll(T));
    assert_eq!(t.executions[0].particle.particle.id, "first");
    assert!(plumber.complete(PeerScope::Host, &sig, done(vec![])));
    let t = pending(plumber.poll(T));
    assert_eq!(t.executions[0].particle.particle.id, "second");
}

#[test]
fn one_step_per_actor() {
    let mut plumber = plumber(2);
    let p = particle(T, 1000);
    let sig = p.particle.signature.clone();
    plumber.ingest(p.duplicate(), None, PeerScope::Host, T);
    plumber.ingest(p, None, PeerScope::Host, T);
    build_vms(&mut plumber, T);
    let t = pending(plumber.poll(T));
    assert_eq!(t.executions.len(), 1);
    assert_eq!(plumber.host_free_vms(), 1);
    let t = pending(plumber.poll(T));
    assert_eq!(t.executions.len(), 0);
    assert_eq!(plumber.mailbox_size(PeerScope::Host, &sig), Some(1));
}

#[test]
fn gauges_per_scope() {
    let mut plumber = plumber(1);
    plumber.register_worker(100, "deal-1".to_string(), true);
    plumber.register_worker(200, "deal-2".to_string(), true);
    plumber.create_worker_pool(100, 1);
    plumber.ingest(particle_from(50, T, 1000, vec![1]), None, PeerScope::Host, T);
    plumber.ingest(particle_from(50, T, 1000, vec![1]), None, PeerScope::Host, T);
    plumber.ingest(particle_from(50, T, 1000, vec![2]), None, PeerScope::Host, T);
    plumber.ingest(particle_from(50, T, 1000, vec![3]), None, PeerScope::WorkerId(100), T);
    plumber.ingest(particle_from(50, T, 1000, vec![4]), None, PeerScope::WorkerId(200), T);
    let g = plumber.gauges();
    assert_eq!(g.len(), 2);
    assert_eq!(g[0].scope, PeerScope::Host);
    assert_eq!(g[0].mailbox_total, 3);
    assert_eq!(g[0].alive_actors, 2);
    assert_eq!(g[1].scope, PeerScope::WorkerId(100));
    assert_eq!(g[1].mailbox_total, 1);
    assert_eq!(g[1].alive_actors, 1);
}
