//! Particles, peer scopes, and the events the plumber hands out.
use vstd::prelude::*;

use crate::deadline::deadline_of;

verus! {

/// Identity of a peer in the network.
pub type PeerId = u64;

/// Identity of a worker hosted on this node; a worker's peer id is its worker id.
pub type WorkerId = u64;

/// Handle of a service function that a local caller asked to run for a particle.
pub type FunctionId = u64;

/// Which actor map and interpreter pool a particle is addressed to.
#[derive(Debug, Clone, Copy, PartialEq, Eq, Structural)]
pub enum PeerScope {
    Host,
    WorkerId(WorkerId),
}

/// An immutable signed message: the unit of work.
#[derive(Debug)]
pub struct Particle {
    pub id: String,
    pub init_peer_id: PeerId,
    pub timestamp_ms: u64,
    pub ttl_ms: u32,
    pub signature: Vec<u8>,
    pub script: String,
    pub data: Vec<u8>,
}

pub ghost struct ParticleView {
    pub id: Seq<char>,
    pub init_peer_id: PeerId,
    pub timestamp_ms: u64,
    pub ttl_ms: u32,
    pub signature: Seq<u8>,
    pub script: Seq<char>,
    pub data: Seq<u8>,
}

impl View for Particle {
    type V = ParticleView;

    open spec fn view(&self) -> ParticleView {
        ParticleView {
            id: self.id@,
            init_peer_id: self.init_peer_id,
            timestamp_ms: self.timestamp_ms,
            ttl_ms: self.ttl_ms,
            signature: self.signature@,
            script: self.script@,
            data: self.data@,
        }
    }
}

impl ParticleView {
    pub open spec fn deadline(self) -> u64 {
        deadline_of(self.timestamp_ms, self.ttl_ms)
    }
}

/// A copy of a byte string.
pub fn copy_bytes(b: &Vec<u8>) -> (r: Vec<u8>)
    ensures
        r@ == b@,
{
    let r = b.clone();
    assert(r@ =~= b@);
    r
}

impl Particle {
    /// A copy with the same contents.
    pub fn duplicate(&self) -> (r: Particle)
        ensures
            r@ == self@,
    {
        Particle {
            id: self.id.clone(),
            init_peer_id: self.init_peer_id,
            timestamp_ms: self.timestamp_ms,
            ttl_ms: self.ttl_ms,
            signature: copy_bytes(&self.signature),
            script: self.script.clone(),
            data: copy_bytes(&self.data),
        }
    }
}


/// A particle together with what the node's key services concluded about it:
/// whether its signature verifies against its initiator, and the host root
/// key's signature over the particle signature (absent where signing failed).
#[derive(Debug)]
pub struct ExtendedParticle {
    pub particle: Particle,
    pub verification: Result<(), String>,
    pub root_signature: Option<Vec<u8>>,
}

pub ghost struct ExtendedParticleView {
    pub particle: ParticleView,
    pub verification: Result<(), Seq<char>>,
    pub root_signature: Option<Seq<u8>>,
}

impl View for ExtendedParticle {
    type V = ExtendedParticleView;

    open spec fn view(&self) -> ExtendedParticleView {
        ExtendedParticleView {
            particle: self.particle@,
            verification: match self.verification {
                Ok(()) => Ok(()),
                Err(e) => Err(e@),
            },
            root_signature: match self.root_signature {
                Some(s) => Some(s@),
                None => None,
            },
        }
    }
}

impl ExtendedParticle {
    pub fn new(particle: Particle, verification: Result<(), String>, root_signature: Option<Vec<u8>>) -> (r: ExtendedParticle)
        ensures
            r.particle == particle,
            r.verification == verification,
            r.root_signature == root_signature,
    {
        ExtendedParticle { particle, verification, root_signature }
    }

    /// A copy with the same contents.
    pub fn duplicate(&self) -> (r: ExtendedParticle)
        ensures
            r@ == self@,
    {
        let verification = match &self.verification {
            Ok(()) => Ok(()),
            Err(e) => Err(e.clone()),
        };
        let root_signature = match &self.root_signature {
            Some(s) => Some(copy_bytes(s)),
            None => None,
        };
        ExtendedParticle { particle: self.particle.duplicate(), verification, root_signature }
    }
}

/// Errors surfaced through the plumber's event stream.
#[derive(Debug)]
pub enum AquamarineApiError {
    ParticleExpired { particle_id: String },
    SignatureVerificationFailed { particle_id: String, err: String },
}

/// A particle to be sent on to peers that this node does not host.
#[derive(Debug)]
pub struct RemoteRoutingEffects {
    pub particle: ExtendedParticle,
    pub next_peers: Vec<PeerId>,
}

/// What the plumber hands out: remote routing work, or an error.
pub ghost enum EventView {
    Remote { particle: ExtendedParticleView, next_peers: Seq<PeerId> },
    Expired { particle_id: Seq<char> },
    SignatureFailed { particle_id: Seq<char>, err: Seq<char> },
}

pub open spec fn event_view(e: Result<RemoteRoutingEffects, AquamarineApiError>) -> EventView {
    match e {
        Ok(r) => EventView::Remote { particle: r.particle@, next_peers: r.next_peers@ },
        Err(AquamarineApiError::ParticleExpired { particle_id }) => EventView::Expired {
            particle_id: particle_id@,
        },
        Err(AquamarineApiError::SignatureVerificationFailed { particle_id, err }) => {
            EventView::SignatureFailed { particle_id: particle_id@, err: err@ }
        },
    }
}

} // verus!
