//! The protocol state of one node: view, sequence number, phase, working
//! block, and the primary of each view.

use vstd::prelude::*;
use crate::error::PbftError;
use crate::types::{Block, NodeId, Phase};

verus! {

/// What drives the phase state machine forward.
pub enum Trigger {
    /// A valid PrePrepare from the primary carrying the candidate block.
    PrePrepare(Block),
    /// The node has broadcast its own Prepare.
    Prepared,
    /// A prepare quorum was reached for the working block.
    PrepareQuorum,
    /// A commit quorum was reached for the working block.
    CommitQuorum,
    /// The chain acknowledged the commit of the working block.
    ChainCommitted,
    /// The phase deadline elapsed.
    DeadlineElapsed,
    /// A validated NewView for the given view.
    NewView(u64),
}

/// The phase that a trigger leads to from a phase, if the table allows it.
pub open spec fn next_phase(phase: Phase, trigger: Trigger, view: u64) -> Option<Phase> {
    match trigger {
        Trigger::PrePrepare(_) => if phase == Phase::NotStarted { Some(Phase::PrePreparing) } else { None },
        Trigger::Prepared => if phase == Phase::PrePreparing { Some(Phase::Preparing) } else { None },
        Trigger::PrepareQuorum => if phase == Phase::Preparing { Some(Phase::Committing) } else { None },
        Trigger::CommitQuorum => if phase == Phase::Committing { Some(Phase::Committed) } else { None },
        Trigger::ChainCommitted => if phase == Phase::Committed { Some(Phase::NotStarted) } else { None },
        Trigger::DeadlineElapsed => if phase != Phase::Committed { Some(Phase::ViewChanging) } else { None },
        Trigger::NewView(v) => if v > view && phase != Phase::Committed { Some(Phase::NotStarted) } else { None },
    }
}

/// The view, sequence number, phase and working block of a node, with the
/// fixed, ordered membership.
pub struct ProtocolState {
    pub view: u64,
    pub seq: u64,
    pub phase: Phase,
    pub working_block: Option<Block>,
    pub membership: Vec<NodeId>,
}

impl ProtocolState {
    pub open spec fn wf(&self) -> bool {
        &&& 1 <= self.membership@.len() < u64::MAX
        &&& (self.phase == Phase::NotStarted || self.phase == Phase::ViewChanging) <==> self.working_block is None
    }

    /// The primary of a view: membership[view mod N].
    pub open spec fn spec_primary(&self, view: u64) -> NodeId {
        self.membership@[(view as nat % self.membership@.len()) as int]
    }

    /// A node at view 0, sequence `seq`, with no round started.
    pub fn new(membership: Vec<NodeId>, seq: u64) -> (r: ProtocolState)
        requires
            1 <= membership@.len() < u64::MAX,
        ensures
            r.wf(),
            r.view == 0,
            r.seq == seq,
            r.phase == Phase::NotStarted,
            r.membership@ == membership@,
    {
        ProtocolState { view: 0, seq, phase: Phase::NotStarted, working_block: None, membership }
    }

    pub fn size(&self) -> (r: u64)
        requires
            self.wf(),
        ensures
            r == self.membership@.len(),
    {
        self.membership.len() as u64
    }

    pub fn primary(&self, view: u64) -> (r: NodeId)
        requires
            self.wf(),
        ensures
            r == self.spec_primary(view),
    {
        let n = self.membership.len() as u64;
        self.membership[(view % n) as usize]
    }

    pub fn is_primary(&self, id: NodeId) -> (r: bool)
        requires
            self.wf(),
        ensures
            r == (id == self.spec_primary(self.view)),
    {
        self.primary(self.view) == id
    }

    /// Moves the phase along the transition table. A trigger that the table
    /// does not allow from the current phase, or a sequence number that would
    /// overflow, is refused with `InternalError` and changes nothing. A
    /// PrePrepare installs its block as the working block; a commit
    /// acknowledgement moves to the next sequence number; an elapsed deadline
    /// and a new view clear the working block; a new view adopts its view,
    /// unless the node is Committed and waits for the chain.
    pub fn advance(&mut self, trigger: Trigger) -> (r: Result<Phase, PbftError>)
        requires
            old(self).wf(),
        ensures
            final(self).wf(),
            final(self).membership@ == old(self).membership@,
            final(self).view >= old(self).view,
            match next_phase(old(self).phase, trigger, old(self).view) {
                None => r matches Err(PbftError::InternalError(_)) && *final(self) == *old(self),
                Some(p) => {
                    if trigger is ChainCommitted && old(self).seq == u64::MAX {
                        r matches Err(PbftError::InternalError(_)) && *final(self) == *old(self)
                    } else {
                        &&& r == Ok::<Phase, PbftError>(p)
                        &&& final(self).phase == p
                        &&& final(self).view == (match trigger { Trigger::NewView(v) => v, _ => old(self).view })
                        &&& final(self).seq == (if trigger is ChainCommitted { (old(self).seq + 1) as u64 } else { old(self).seq })
                        &&& (match trigger {
                            Trigger::PrePrepare(b) => final(self).working_block == Some(b),
                            Trigger::ChainCommitted => final(self).working_block is None,
                            Trigger::DeadlineElapsed => final(self).working_block is None,
                            Trigger::NewView(_) => final(self).working_block is None,
                            _ => final(self).working_block == old(self).working_block,
                        })
                    }
                },
            },
    {
        match trigger {
            Trigger::PrePrepare(b) => {
                if self.phase != Phase::NotStarted {
                    return Err(PbftError::InternalError("PrePrepare outside NotStarted".to_string()));
                }
                self.working_block = Some(b);
                self.phase = Phase::PrePreparing;
            },
            Trigger::Prepared => {
                if self.phase != Phase::PrePreparing {
                    return Err(PbftError::InternalError("Prepare broadcast outside PrePreparing".to_string()));
                }
                self.phase = Phase::Preparing;
            },
            Trigger::PrepareQuorum => {
                if self.phase != Phase::Preparing {
                    return Err(PbftError::InternalError("prepare quorum outside Preparing".to_string()));
                }
                self.phase = Phase::Committing;
            },
            Trigger::CommitQuorum => {
                if self.phase != Phase::Committing {
                    return Err(PbftError::InternalError("commit quorum outside Committing".to_string()));
                }
                self.phase = Phase::Committed;
            },
            Trigger::ChainCommitted => {
                if self.phase != Phase::Committed {
                    return Err(PbftError::InternalError("commit acknowledged outside Committed".to_string()));
                }
                if self.seq == u64::MAX {
                    return Err(PbftError::InternalError("sequence number overflow".to_string()));
                }
                self.seq = self.seq + 1;
                self.working_block = None;
                self.phase = Phase::NotStarted;
            },
            Trigger::DeadlineElapsed => {
                if self.phase == Phase::Committed {
                    return Err(PbftError::InternalError("deadline while Committed".to_string()));
                }
                self.working_block = None;
                self.phase = Phase::ViewChanging;
            },
            Trigger::NewView(v) => {
                if v <= self.view {
                    return Err(PbftError::InternalError("new view not above current view".to_string()));
                }
                if self.phase == Phase::Committed {
                    return Err(PbftError::InternalError("new view while Committed".to_string()));
                }
                self.view = v;
                self.working_block = None;
                self.phase = Phase::NotStarted;
            },
        }
        Ok(self.phase)
    }
}

} // verus!
