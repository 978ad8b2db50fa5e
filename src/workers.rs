//! The node's own peers and the registry of the workers it hosts.
use vstd::prelude::*;

use crate::particle::{PeerId, WorkerId};

verus! {

/// The peers that the node itself answers for.
#[derive(Debug, Clone, Copy, PartialEq, Eq, Structural)]
pub struct PeerScopes {
    pub host_peer_id: PeerId,
    pub management_peer_id: PeerId,
    pub builtins_management_peer_id: PeerId,
}

impl PeerScopes {
    pub open spec fn spec_is_management(self, peer: PeerId) -> bool {
        peer == self.management_peer_id || peer == self.builtins_management_peer_id
    }

    /// Whether `peer` is one of the node's management peers.
    pub fn is_management(&self, peer: PeerId) -> (r: bool)
        ensures
            r == self.spec_is_management(peer),
    {
        peer == self.management_peer_id || peer == self.builtins_management_peer_id
    }

    /// Whether `peer` is the host itself.
    pub fn is_host(&self, peer: PeerId) -> (r: bool)
        ensures
            r == (peer == self.host_peer_id),
    {
        peer == self.host_peer_id
    }
}

/// A worker registered on this node: whether it is active, and the deal it
/// serves. A registered worker has its key pair and its runtime.
#[derive(Debug)]
pub struct WorkerInfo {
    pub worker_id: WorkerId,
    pub active: bool,
    pub deal_id: String,
}

/// A registered worker as a value.
pub ghost struct WorkerInfoView {
    pub worker_id: WorkerId,
    pub active: bool,
    pub deal_id: Seq<char>,
}

impl View for WorkerInfo {
    type V = WorkerInfoView;

    open spec fn view(&self) -> WorkerInfoView {
        WorkerInfoView { worker_id: self.worker_id, active: self.active, deal_id: self.deal_id@ }
    }
}

/// Worker `w` is registered.
pub open spec fn is_registered(s: Seq<WorkerInfoView>, w: WorkerId) -> bool {
    exists|i: int| 0 <= i < s.len() && (#[trigger] s[i]).worker_id == w
}

/// The position of worker `w` in the registry (unique in a sound registry).
pub open spec fn worker_index(s: Seq<WorkerInfoView>, w: WorkerId) -> int {
    choose|i: int| 0 <= i < s.len() && (#[trigger] s[i]).worker_id == w
}

/// Worker `w` is registered and active.
pub open spec fn is_active(s: Seq<WorkerInfoView>, w: WorkerId) -> bool {
    is_registered(s, w) && s[worker_index(s, w)].active
}

/// The deal that registered worker `w` serves.
pub open spec fn deal_of(s: Seq<WorkerInfoView>, w: WorkerId) -> Seq<char> {
    s[worker_index(s, w)].deal_id
}

pub open spec fn worker_views(s: Seq<WorkerInfo>) -> Seq<WorkerInfoView> {
    s.map_values(|w: WorkerInfo| w@)
}

/// No worker is registered twice.
pub open spec fn workers_unique(s: Seq<WorkerInfoView>) -> bool {
    forall|i: int, j: int|
        0 <= i < j < s.len() ==> (#[trigger] s[i]).worker_id != (#[trigger] s[j]).worker_id
}

pub(crate) fn find_worker(workers: &Vec<WorkerInfo>, w: WorkerId) -> (r: Option<usize>)
    requires
        workers_unique(worker_views(workers@)),
    ensures
        match r {
            Some(i) => i < workers@.len() && is_registered(worker_views(workers@), w)
                && worker_index(worker_views(workers@), w) == i,
            None => !is_registered(worker_views(workers@), w),
        },
{
    let ghost s = worker_views(workers@);
    let mut i: usize = 0;
    while i < workers.len()
        invariant
            i <= workers@.len(),
            s == worker_views(workers@),
            workers_unique(s),
            forall|j: int| 0 <= j < i ==> s[j].worker_id != w,
        decreases workers@.len() - i,
    {
        if workers[i].worker_id == w {
            assert(s[i as int].worker_id == w);
            assert(is_registered(s, w));
            let ghost k = worker_index(s, w);
            assert(k == i) by {
                if k != i {
                    if k < i {
                        assert(s[k].worker_id != s[i as int].worker_id);
                    } else {
                        assert(s[i as int].worker_id != s[k].worker_id);
                    }
                }
            }
            return Some(i);
        }
        i = i + 1;
    }
    None
}

} // verus!
