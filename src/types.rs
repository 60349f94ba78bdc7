//! Values that the consensus core exchanges: blocks, phases, votes and messages.

use vstd::prelude::*;

verus! {

/// A validator's identifier.
pub type NodeId = u64;

/// A candidate block. Two blocks are the same block when their ids are equal.
#[derive(Debug)]
pub struct Block {
    pub block_id: Vec<u8>,
    pub previous_block_id: Vec<u8>,
    pub signer_id: NodeId,
    pub summary: Vec<u8>,
}

/// The phase of the active (view, sequence) round at a node.
#[derive(Clone, Copy, Debug, PartialEq, Eq, Structural)]
pub enum Phase {
    NotStarted,
    PrePreparing,
    Preparing,
    Committing,
    Committed,
    ViewChanging,
}

/// The kind of a vote that the message log counts.
#[derive(Clone, Copy, Debug, PartialEq, Eq, Structural)]
pub enum VoteKind {
    Prepare,
    Commit,
    ViewChange,
    Checkpoint,
}

/// One vote as the message log holds it. A view-change vote is filed under
/// the view it proposes, sequence zero and an empty block id; a checkpoint
/// vote under view zero, its sequence number and the state digest.
#[derive(Debug)]
pub struct Vote {
    pub view: u64,
    pub seq: u64,
    pub kind: VoteKind,
    pub sender: NodeId,
    pub block_id: Vec<u8>,
}

/// A request to move to a new view.
#[derive(Debug)]
pub struct ViewChangeVote {
    pub new_view: u64,
    pub sender: NodeId,
    pub last_stable_seq: u64,
}

/// A protocol message, already decoded.
#[derive(Debug)]
pub enum ProtocolMessage {
    PrePrepare { view: u64, seq: u64, block: Block },
    Prepare { view: u64, seq: u64, block_id: Vec<u8>, sender: NodeId },
    Commit { view: u64, seq: u64, block_id: Vec<u8>, sender: NodeId },
    ViewChange(ViewChangeVote),
    NewView { view: u64, sender: NodeId, quorum: Vec<ViewChangeVote> },
    Checkpoint { seq: u64, state_digest: Vec<u8>, sender: NodeId },
}

impl Block {
    /// Whether two blocks are the same block, that is, have equal ids.
    pub fn same_block(&self, other: &Block) -> (r: bool)
        ensures
            r == (self.block_id@ == other.block_id@),
    {
        same_bytes(&self.block_id, &other.block_id)
    }

    /// A copy of the block.
    pub fn copy(&self) -> (r: Block)
        ensures
            r.block_id@ == self.block_id@,
            r.previous_block_id@ == self.previous_block_id@,
            r.signer_id == self.signer_id,
            r.summary@ == self.summary@,
    {
        Block {
            block_id: copy_bytes(&self.block_id),
            previous_block_id: copy_bytes(&self.previous_block_id),
            signer_id: self.signer_id,
            summary: copy_bytes(&self.summary),
        }
    }
}

/// A copy of a byte string.
pub fn copy_bytes(b: &Vec<u8>) -> (r: Vec<u8>)
    ensures
        r@ == b@,
{
    let mut r: Vec<u8> = Vec::new();
    let mut i: usize = 0;
    while i < b.len()
        invariant
            i <= b@.len(),
            r@ == b@.take(i as int),
        decreases b@.len() - i,
    {
        r.push(b[i]);
        i = i + 1;
        assert(r@ =~= b@.take(i as int));
    }
    assert(b@.take(b@.len() as int) =~= b@);
    r
}

/// Whether two byte strings are equal.
pub fn same_bytes(a: &Vec<u8>, b: &Vec<u8>) -> (r: bool)
    ensures
        r == (a@ == b@),
{
    if a.len() != b.len() {
        return false;
    }
    let mut i: usize = 0;
    while i < a.len()
        invariant
            i <= a@.len(),
            a@.len() == b@.len(),
            a@.take(i as int) == b@.take(i as int),
        decreases a@.len() - i,
    {
        if a[i] != b[i] {
            assert(a@[i as int] != b@[i as int]);
            return false;
        }
        assert(a@.take(i + 1) =~= a@.take(i as int).push(a@[i as int]));
        assert(b@.take(i + 1) =~= b@.take(i as int).push(b@[i as int]));
        i = i + 1;
    }
    assert(a@.take(a@.len() as int) =~= a@);
    assert(b@.take(b@.len() as int) =~= b@);
    true
}

/// The largest number of faulty validators that a membership of `n` tolerates
/// (n = 3f + 1).
pub open spec fn spec_fault_bound(n: nat) -> nat {
    ((n - 1) as nat) / 3
}

/// Votes needed for a prepare, commit or new-view quorum: 2f + 1.
pub open spec fn spec_quorum_size(n: nat) -> nat {
    2 * spec_fault_bound(n) + 1
}

/// Votes that justify suspecting the primary: f + 1.
pub open spec fn spec_weak_quorum_size(n: nat) -> nat {
    spec_fault_bound(n) + 1
}

pub fn fault_bound(n: u64) -> (r: u64)
    requires
        n >= 1,
    ensures
        r == spec_fault_bound(n as nat),
{
    (n - 1) / 3
}

pub fn quorum_size(n: u64) -> (r: u64)
    requires
        n >= 1,
    ensures
        r == spec_quorum_size(n as nat),
{
    2 * fault_bound(n) + 1
}

pub fn weak_quorum_size(n: u64) -> (r: u64)
    requires
        n >= 1,
    ensures
        r == spec_weak_quorum_size(n as nat),
{
    fault_bound(n) + 1
}

} // verus!
