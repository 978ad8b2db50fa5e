//! The actor: the state machine of one particle stream, with its mailbox and
//! its step in flight.
use vstd::prelude::*;

use crate::particle::{
    copy_bytes, ExtendedParticle, ExtendedParticleView, FunctionId, PeerId, PeerScope, WorkerId,
};

verus! {

/// The runtime on which an actor's work is run: the node's root runtime, or
/// the runtime of the worker that the actor belongs to.
#[derive(Debug, Clone, Copy, PartialEq, Eq, Structural)]
pub enum Spawner {
    Root,
    Worker(WorkerId),
}

/// The runtime that an actor of `scope` runs on.
pub open spec fn spawner_of(scope: PeerScope) -> Spawner {
    match scope {
        PeerScope::Host => Spawner::Root,
        PeerScope::WorkerId(w) => Spawner::Worker(w),
    }
}

/// What an interpreter run reported back for one step of an actor.
#[derive(Debug)]
pub struct AvmOutcome {
    pub success: bool,
    pub new_data: Vec<u8>,
    pub next_peers: Vec<PeerId>,
    /// The interpreter instance was lost (panic or cancellation) and has to be rebuilt.
    pub vm_lost: bool,
}

pub ghost struct AvmOutcomeView {
    pub success: bool,
    pub new_data: Seq<u8>,
    pub next_peers: Seq<PeerId>,
    pub vm_lost: bool,
}

impl View for AvmOutcome {
    type V = AvmOutcomeView;

    open spec fn view(&self) -> AvmOutcomeView {
        AvmOutcomeView {
            success: self.success,
            new_data: self.new_data@,
            next_peers: self.next_peers@,
            vm_lost: self.vm_lost,
        }
    }
}

/// One step that an actor has started: the runtime runs the interpreter on it
/// and reports the outcome back.
#[derive(Debug)]
pub struct Execution {
    pub scope: PeerScope,
    pub key: Vec<u8>,
    pub vm_id: usize,
    pub particle: ExtendedParticle,
    pub function: Option<FunctionId>,
    pub particle_token: String,
    pub current_peer_id: PeerId,
    pub deal_id: Option<String>,
    pub spawner: Spawner,
}

pub ghost struct ExecutionView {
    pub scope: PeerScope,
    pub key: Seq<u8>,
    pub vm_id: usize,
    pub particle: ExtendedParticleView,
    pub function: Option<FunctionId>,
    pub particle_token: Seq<char>,
    pub current_peer_id: PeerId,
    pub deal_id: Option<Seq<char>>,
    pub spawner: Spawner,
}

impl View for Execution {
    type V = ExecutionView;

    open spec fn view(&self) -> ExecutionView {
        ExecutionView {
            scope: self.scope,
            key: self.key@,
            vm_id: self.vm_id,
            particle: self.particle@,
            function: self.function,
            particle_token: self.particle_token@,
            current_peer_id: self.current_peer_id,
            deal_id: match self.deal_id {
                Some(d) => Some(d@),
                None => None,
            },
            spawner: self.spawner,
        }
    }
}

/// What `Actor::poll_next` did with the instance it was offered.
#[derive(Debug)]
pub enum ActorPoll {
    /// Nothing to run: the instance is handed back unused.
    Vm(usize),
    /// A step was started on the instance.
    Executing(Execution),
}

/// A finished step, ready to be routed.
#[derive(Debug)]
pub struct StepResult {
    /// The particle that was processed, carrying the data the interpreter produced.
    pub particle: ExtendedParticle,
    pub next_peers: Vec<PeerId>,
    pub success: bool,
    pub vm_id: usize,
    /// The instance survived the step and can be lent again.
    pub vm_returned: bool,
}

/// The tuple under which an expired actor's persisted data is removed:
/// particle id, current peer, signature, and deal id (empty on the host).
#[derive(Debug)]
pub struct CleanupKey {
    pub particle_id: String,
    pub peer_id: PeerId,
    pub signature: Vec<u8>,
    pub deal_id: String,
}

pub ghost struct CleanupKeyView {
    pub particle_id: Seq<char>,
    pub peer_id: PeerId,
    pub signature: Seq<u8>,
    pub deal_id: Seq<char>,
}

impl View for CleanupKey {
    type V = CleanupKeyView;

    open spec fn view(&self) -> CleanupKeyView {
        CleanupKeyView {
            particle_id: self.particle_id@,
            peer_id: self.peer_id,
            signature: self.signature@,
            deal_id: self.deal_id@,
        }
    }
}

/// The particle that an actor is processing.
struct InFlight {
    particle: ExtendedParticle,
    vm_id: usize,
    outcome: Option<AvmOutcome>,
}

pub ghost struct InFlightView {
    pub particle: ExtendedParticleView,
    pub vm_id: usize,
    pub outcome: Option<AvmOutcomeView>,
}

/// An actor as a value.
pub ghost struct ActorView {
    pub key: Seq<u8>,
    pub scope: PeerScope,
    pub particle_id: Seq<char>,
    pub current_peer_id: PeerId,
    pub particle_token: Seq<char>,
    pub deal_id: Option<Seq<char>>,
    pub function: Option<FunctionId>,
    pub mailbox: Seq<ExtendedParticleView>,
    pub current: Option<InFlightView>,
    pub deadline_ms: u64,
    pub last_activity_ms: u64,
    /// How many particles were ever put in the mailbox.
    pub ingested: nat,
    /// How many particles were ever taken out of the mailbox to be run.
    pub started: nat,
}

/// The actor's step has finished and awaits collection.
pub open spec fn completed(a: ActorView) -> bool {
    a.current is Some && a.current.unwrap().outcome is Some
}

/// The actor may start a step: nothing in flight and a particle waiting.
pub open spec fn ready(a: ActorView) -> bool {
    a.current is None && a.mailbox.len() > 0
}

/// The actor with nothing in flight and nothing waiting to be cleaned up, past its deadline.
pub open spec fn eligible(a: ActorView, now_ms: u64) -> bool {
    now_ms >= a.deadline_ms && a.current is None
}

/// The finished step of a completed actor: the particle carries the data the
/// interpreter produced.
pub open spec fn step_of(a: ActorView) -> StepResultView {
    let c = a.current.unwrap();
    let o = c.outcome.unwrap();
    StepResultView {
        particle: ExtendedParticleView {
            particle: crate::particle::ParticleView { data: o.new_data, ..c.particle.particle },
            ..c.particle
        },
        next_peers: o.next_peers,
        success: o.success,
        vm_id: c.vm_id,
        vm_returned: !o.vm_lost,
    }
}

/// The step that a ready actor starts on instance `vm_id`: the head of its mailbox.
pub open spec fn execution_of(a: ActorView, vm_id: usize) -> ExecutionView {
    ExecutionView {
        scope: a.scope,
        key: a.key,
        vm_id,
        particle: a.mailbox[0],
        function: a.function,
        particle_token: a.particle_token,
        current_peer_id: a.current_peer_id,
        deal_id: a.deal_id,
        spawner: spawner_of(a.scope),
    }
}

/// The actor after starting a step on instance `vm_id`.
pub open spec fn start_of(a: ActorView, vm_id: usize) -> ActorView {
    ActorView {
        mailbox: a.mailbox.drop_first(),
        current: Some(InFlightView { particle: a.mailbox[0], vm_id, outcome: None }),
        started: a.started + 1,
        ..a
    }
}

/// The cleanup key of an actor.
pub open spec fn cleanup_key_of(a: ActorView) -> CleanupKeyView {
    CleanupKeyView {
        particle_id: a.particle_id,
        peer_id: a.current_peer_id,
        signature: a.key,
        deal_id: match a.deal_id {
            Some(d) => d,
            None => Seq::empty(),
        },
    }
}

/// The actor after `p` was appended to its mailbox at `now_ms`.
pub open spec fn ingest_of(a: ActorView, p: ExtendedParticleView, now_ms: u64) -> ActorView {
    ActorView {
        mailbox: a.mailbox.push(p),
        deadline_ms: max_u64(a.deadline_ms, p.particle.deadline()),
        last_activity_ms: now_ms,
        ingested: a.ingested + 1,
        ..a
    }
}

/// The actor after the particles of `ps` were ingested, in order, at `now_ms`.
pub open spec fn ingest_all(a: ActorView, ps: Seq<ExtendedParticleView>, now_ms: u64) -> ActorView
    decreases ps.len(),
{
    if ps.len() == 0 {
        a
    } else {
        ingest_of(ingest_all(a, ps.drop_last(), now_ms), ps.last(), now_ms)
    }
}

/// `k` steps of an actor, each started on instance `vm_id` and collected
/// once finished: the actor afterwards, and the particles taken, in order.
pub open spec fn run_steps(a: ActorView, k: nat, vm_id: usize) -> (ActorView, Seq<ExtendedParticleView>)
    decreases k,
{
    if k == 0 {
        (a, Seq::empty())
    } else {
        let (b, taken) = run_steps(a, (k - 1) as nat, vm_id);
        (ActorView { current: None, ..start_of(b, vm_id) }, taken.push(b.mailbox[0]))
    }
}

/// Ingesting appends to the mailbox, in order.
pub proof fn lemma_ingest_appends(a: ActorView, ps: Seq<ExtendedParticleView>, now_ms: u64)
    ensures
        ingest_all(a, ps, now_ms).mailbox == a.mailbox + ps,
        ingest_all(a, ps, now_ms).current == a.current,
    decreases ps.len(),
{
    if ps.len() == 0 {
        assert(a.mailbox + ps =~= a.mailbox);
    } else {
        lemma_ingest_appends(a, ps.drop_last(), now_ms);
        assert(a.mailbox + ps =~= (a.mailbox + ps.drop_last()).push(ps.last()));
    }
}

/// Steps take particles from the front of the mailbox, in order.
pub proof fn lemma_steps_take_front(a: ActorView, k: nat, vm_id: usize)
    requires
        a.current is None,
        k <= a.mailbox.len(),
    ensures
        run_steps(a, k, vm_id).1 == a.mailbox.take(k as int),
        run_steps(a, k, vm_id).0.mailbox == a.mailbox.skip(k as int),
        run_steps(a, k, vm_id).0.current is None,
    decreases k,
{
    if k > 0 {
        lemma_steps_take_front(a, (k - 1) as nat, vm_id);
        let b = run_steps(a, (k - 1) as nat, vm_id).0;
        assert(b.mailbox[0] == a.mailbox[k - 1]);
        assert(a.mailbox.take(k as int) =~= a.mailbox.take(k - 1).push(a.mailbox[k - 1]));
        assert(b.mailbox.drop_first() =~= a.mailbox.skip(k as int));
    }
}

/// Particles leave an actor's mailbox in the order in which they were
/// ingested: after ingesting `ps` into an actor with nothing in flight, its
/// next steps take the particles already waiting, then those of `ps`.
pub proof fn lemma_dequeue_in_insertion_order(a: ActorView, ps: Seq<ExtendedParticleView>, now_ms: u64, vm_id: usize)
    requires
        a.current is None,
    ensures
        run_steps(ingest_all(a, ps, now_ms), (a.mailbox.len() + ps.len()) as nat, vm_id).1
            == a.mailbox + ps,
{
    lemma_ingest_appends(a, ps, now_ms);
    let b = ingest_all(a, ps, now_ms);
    lemma_steps_take_front(b, (a.mailbox.len() + ps.len()) as nat, vm_id);
    assert(b.mailbox.take(b.mailbox.len() as int) =~= b.mailbox);
}

pub open spec fn max_u64(a: u64, b: u64) -> u64 {
    if a >= b {
        a
    } else {
        b
    }
}

pub open spec fn particle_views(s: Seq<ExtendedParticle>) -> Seq<ExtendedParticleView> {
    s.map_values(|p: ExtendedParticle| p@)
}

/// The state machine of one logical particle stream, keyed by signature: a
/// first-in-first-out mailbox and at most one step in flight.
pub struct Actor {
    key: Vec<u8>,
    scope: PeerScope,
    particle_id: String,
    current_peer_id: PeerId,
    particle_token: String,
    deal_id: Option<String>,
    function: Option<FunctionId>,
    mailbox: Vec<ExtendedParticle>,
    current: Option<InFlight>,
    deadline_ms: u64,
    last_activity_ms: u64,
    ingested: Ghost<nat>,
    started: Ghost<nat>,
}

impl Actor {
    /// The actor as a value.
    pub closed spec fn view(&self) -> ActorView {
        ActorView {
            key: self.key@,
            scope: self.scope,
            particle_id: self.particle_id@,
            current_peer_id: self.current_peer_id,
            particle_token: self.particle_token@,
            deal_id: match self.deal_id {
                Some(d) => Some(d@),
                None => None,
            },
            function: self.function,
            mailbox: particle_views(self.mailbox@),
            current: match self.current {
                Some(c) => Some(
                    InFlightView {
                        particle: c.particle@,
                        vm_id: c.vm_id,
                        outcome: match c.outcome {
                            Some(o) => Some(o@),
                            None => None,
                        },
                    },
                ),
                None => None,
            },
            deadline_ms: self.deadline_ms,
            last_activity_ms: self.last_activity_ms,
            ingested: self.ingested@,
            started: self.started@,
        }
    }

    /// Every particle put in the mailbox is either still there or was started.
    pub open spec fn wf(&self) -> bool {
        self.view().mailbox.len() + self.view().started == self.view().ingested
    }

    /// A fresh actor for the stream that `particle` opens; its mailbox is empty.
    pub fn new(
        particle: &ExtendedParticle,
        scope: PeerScope,
        current_peer_id: PeerId,
        particle_token: String,
        deal_id: Option<String>,
        now_ms: u64,
    ) -> (r: Actor)
        ensures
            r.wf(),
            r.view() == (ActorView {
                key: particle@.particle.signature,
                scope,
                particle_id: particle@.particle.id,
                current_peer_id,
                particle_token: particle_token@,
                deal_id: match deal_id {
                    Some(d) => Some(d@),
                    None => None,
                },
                function: None,
                mailbox: Seq::empty(),
                current: None,
                deadline_ms: particle@.particle.deadline(),
                last_activity_ms: now_ms,
                ingested: 0,
                started: 0,
            }),
    {
        let deadline_ms = particle.particle.timestamp_ms.saturating_add(
            particle.particle.ttl_ms as u64,
        );
        let r = Actor {
            key: copy_bytes(&particle.particle.signature),
            scope,
            particle_id: particle.particle.id.clone(),
            current_peer_id,
            particle_token,
            deal_id,
            function: None,
            mailbox: Vec::new(),
            current: None,
            deadline_ms,
            last_activity_ms: now_ms,
            ingested: Ghost(0),
            started: Ghost(0),
        };
        assert(r.view().mailbox =~= Seq::empty());
        r
    }

    /// The signature that keys this actor.
    pub fn key(&self) -> (r: &Vec<u8>)
        ensures
            r@ == self.view().key,
    {
        &self.key
    }

    /// Appends a particle to the mailbox; the actor lives at least as long as
    /// the particle does.
    pub fn ingest(&mut self, particle: ExtendedParticle, now_ms: u64)
        requires
            old(self).wf(),
        ensures
            final(self).wf(),
            final(self).view() == ingest_of(old(self).view(), particle@, now_ms),
    {
        let d = particle.particle.timestamp_ms.saturating_add(particle.particle.ttl_ms as u64);
        if d > self.deadline_ms {
            self.deadline_ms = d;
        }
        self.last_activity_ms = now_ms;
        self.mailbox.push(particle);
        self.ingested = Ghost(self.ingested@ + 1);
        assert(particle_views(self.mailbox@) =~= particle_views(old(self).mailbox@).push(particle@));
    }

    /// Installs the service function to run for this stream, replacing any earlier one.
    pub fn set_function(&mut self, function: FunctionId)
        requires
            old(self).wf(),
        ensures
            final(self).wf(),
            final(self).view() == (ActorView { function: Some(function), ..old(self).view() }),
    {
        self.function = Some(function);
    }

    /// The number of particles waiting in the mailbox.
    pub fn mailbox_size(&self) -> (r: usize)
        ensures
            r == self.view().mailbox.len(),
    {
        self.mailbox.len()
    }

    /// Whether a step is in flight (running, or finished and not yet collected).
    pub fn is_executing(&self) -> (r: bool)
        ensures
            r == self.view().current.is_some(),
    {
        self.current.is_some()
    }

    /// Whether the actor is past its deadline at `now_ms`.
    pub fn is_expired(&self, now_ms: u64) -> (r: bool)
        ensures
            r == (now_ms >= self.view().deadline_ms),
    {
        now_ms >= self.deadline_ms
    }

    /// Offers instance `vm_id`. With nothing in flight and a particle waiting,
    /// the head of the mailbox is taken and a step started on the instance;
    /// otherwise the instance is handed back.
    pub fn poll_next(&mut self, vm_id: usize) -> (r: ActorPoll)
        requires
            old(self).wf(),
        ensures
            final(self).wf(),
            ({
                let a = old(self).view();
                if ready(a) {
                    &&& r matches ActorPoll::Executing(e) && e@ == execution_of(a, vm_id)
                    &&& final(self).view() == start_of(a, vm_id)
                } else {
                    r == ActorPoll::Vm(vm_id) && final(self).view() == a
                }
            }),
    {
        if self.current.is_some() || self.mailbox.len() == 0 {
            return ActorPoll::Vm(vm_id);
        }
        let particle = self.mailbox.remove(0);
        assert(particle_views(self.mailbox@) =~= particle_views(old(self).mailbox@).drop_first());
        let deal_id = match &self.deal_id {
            Some(d) => Some(d.clone()),
            None => None,
        };
        let execution = Execution {
            scope: self.scope,
            key: copy_bytes(&self.key),
            vm_id,
            particle: particle.duplicate(),
            function: self.function,
            particle_token: self.particle_token.clone(),
            current_peer_id: self.current_peer_id,
            deal_id,
            spawner: match self.scope {
                PeerScope::Host => Spawner::Root,
                PeerScope::WorkerId(w) => Spawner::Worker(w),
            },
        };
        self.current = Some(InFlight { particle, vm_id, outcome: None });
        self.started = Ghost(self.started@ + 1);
        ActorPoll::Executing(execution)
    }

    /// Records the outcome of the step in flight. Returns `false`, changing
    /// nothing, where no step is in flight or its outcome is already known.
    pub fn complete(&mut self, outcome: AvmOutcome) -> (r: bool)
        requires
            old(self).wf(),
        ensures
            final(self).wf(),
            r == (old(self).view().current matches Some(c) && c.outcome.is_none()),
            r ==> final(self).view() == (ActorView {
                current: Some(
                    InFlightView { outcome: Some(outcome@), ..old(self).view().current.unwrap() },
                ),
                ..old(self).view()
            }),
            !r ==> final(self).view() == old(self).view(),
    {
        match &mut self.current {
            Some(c) => {
                if c.outcome.is_some() {
                    return false;
                }
                c.outcome = Some(outcome);
                true
            },
            None => false,
        }
    }

    /// Takes a finished step out of the actor, which is then free to start the
    /// next one. Nothing happens while the step is still running.
    pub fn poll_completed(&mut self) -> (r: Option<StepResult>)
        requires
            old(self).wf(),
        ensures
            final(self).wf(),
            ({
                let a = old(self).view();
                if completed(a) {
                    &&& r matches Some(s) && s@ == step_of(a)
                    &&& final(self).view() == (ActorView { current: None, ..a })
                } else {
                    r is None && final(self).view() == a
                }
            }),
    {
        let done = match &self.current {
            Some(c) => c.outcome.is_some(),
            None => false,
        };
        if !done {
            return None;
        }
        let c = self.current.take().unwrap();
        let o = c.outcome.unwrap();
        let mut particle = c.particle;
        particle.particle.data = o.new_data;
        Some(
            StepResult {
                particle,
                next_peers: o.next_peers,
                success: o.success,
                vm_id: c.vm_id,
                vm_returned: !o.vm_lost,
            },
        )
    }

    /// The key under which this actor's persisted data is removed.
    pub fn cleanup_key(&self) -> (r: CleanupKey)
        ensures
            r@ == cleanup_key_of(self.view()),
    {
        let deal_id = match &self.deal_id {
            Some(d) => d.clone(),
            None => String::new(),
        };
        CleanupKey {
            particle_id: self.particle_id.clone(),
            peer_id: self.current_peer_id,
            signature: copy_bytes(&self.key),
            deal_id,
        }
    }
}

pub ghost struct StepResultView {
    pub particle: ExtendedParticleView,
    pub next_peers: Seq<PeerId>,
    pub success: bool,
    pub vm_id: usize,
    pub vm_returned: bool,
}

impl View for StepResult {
    type V = StepResultView;

    open spec fn view(&self) -> StepResultView {
        StepResultView {
            particle: self.particle@,
            next_peers: self.next_peers@,
            success: self.success,
            vm_id: self.vm_id,
            vm_returned: self.vm_returned,
        }
    }
}

} // verus!
