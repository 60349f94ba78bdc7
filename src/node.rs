//! The node driver: takes one event at a time (a decoded message, an elapsed
//! deadline, or the chain's acknowledgement of a commit), updates the log and
//! the protocol state, and returns the actions for the caller to carry out.

use vstd::prelude::*;
use crate::error::PbftError;
use crate::log::{
    after_record, at_or_above, conflicts, counts_for, extends, has_voted, in_slot, lemma_conflict_no_voters,
    lemma_filter_view_change_ids_empty, lemma_voters_contains, lemma_voters_filter, lemma_voters_finite,
    lemma_voters_order_independent, lemma_voters_push, view_change_ids_empty, voters, MessageLog,
};
use crate::state::{ProtocolState, Trigger};
use crate::timeout::{cap, TimeoutManager};
use crate::types::{
    copy_bytes, quorum_size, spec_quorum_size, spec_weak_quorum_size, weak_quorum_size, Block, NodeId, Phase, ProtocolMessage, ViewChangeVote, Vote, VoteKind,
};

verus! {

/// An input to the node.
#[derive(Debug)]
pub enum Event {
    /// A message that the transport delivered and the codec decoded.
    Message(ProtocolMessage),
    /// The armed phase deadline elapsed.
    Timeout,
    /// The chain committed the block that the node handed it.
    ChainCommitted,
}

/// Work that the node hands back to the caller.
#[derive(Debug)]
pub enum Action {
    /// Send the message to every validator.
    Broadcast(ProtocolMessage),
    /// Commit the block to the chain, then report `Event::ChainCommitted`.
    CommitBlock(Block),
}

/// `after` extends `before` with Broadcast actions only.
pub open spec fn broadcasts_only(before: Seq<Action>, after: Seq<Action>) -> bool {
    &&& after.len() >= before.len()
    &&& forall|i: int| 0 <= i < before.len() ==> #[trigger] after[i] == before[i]
    &&& forall|i: int| before.len() <= i < after.len() ==> (#[trigger] after[i]) is Broadcast
}

/// The action broadcasts a Commit with these fields.
pub open spec fn is_commit_of(a: Action, view: u64, seq: u64, id: Seq<u8>, sender: NodeId) -> bool {
    match a {
        Action::Broadcast(ProtocolMessage::Commit { view: v, seq: s, block_id: b, sender: x }) =>
            v == view && s == seq && b@ == id && x == sender,
        _ => false,
    }
}

/// The action broadcasts a Prepare with these fields.
pub open spec fn is_prepare_of(a: Action, view: u64, seq: u64, id: Seq<u8>, sender: NodeId) -> bool {
    match a {
        Action::Broadcast(ProtocolMessage::Prepare { view: v, seq: s, block_id: b, sender: x }) =>
            v == view && s == seq && b@ == id && x == sender,
        _ => false,
    }
}

/// The action broadcasts a ViewChange for `view` from `sender`.
pub open spec fn is_view_change_of(a: Action, view: u64, sender: NodeId) -> bool {
    match a {
        Action::Broadcast(ProtocolMessage::ViewChange(vc)) => vc.new_view == view && vc.sender == sender,
        _ => false,
    }
}

/// The action broadcasts a NewView for `view` from `sender`.
pub open spec fn is_new_view_of(a: Action, view: u64, sender: NodeId) -> bool {
    match a {
        Action::Broadcast(ProtocolMessage::NewView { view: v, sender: x, .. }) => v == view && x == sender,
        _ => false,
    }
}

/// The distinct senders of recorded requests to move to `view`.
pub open spec fn view_change_voters(votes: Seq<Vote>, view: u64) -> Set<NodeId> {
    voters(votes, view, 0, VoteKind::ViewChange, Seq::empty())
}

/// Recording a request to move to a view never conflicts, and adds its
/// sender to the requesters of that view.
pub proof fn lemma_view_change_record(votes: Seq<Vote>, vote: Vote)
    requires
        view_change_ids_empty(votes),
        vote.kind == VoteKind::ViewChange,
        vote.seq == 0,
        vote.block_id@ == Seq::<u8>::empty(),
    ensures
        !conflicts(votes, vote.view, 0, VoteKind::ViewChange, Seq::empty()),
        view_change_voters(after_record(votes, vote), vote.view) == view_change_voters(votes, vote.view).insert(vote.sender),
        view_change_ids_empty(after_record(votes, vote)),
{
    let e = Seq::<u8>::empty();
    if conflicts(votes, vote.view, 0, VoteKind::ViewChange, e) {
        let j = choose|j: int| 0 <= j < votes.len() && #[trigger] in_slot(votes[j], vote.view, 0, VoteKind::ViewChange) && votes[j].block_id@ != e;
        assert(votes[j].kind == VoteKind::ViewChange);
    }
    if has_voted(votes, vote.view, 0, VoteKind::ViewChange, vote.sender) {
        let j = choose|j: int| 0 <= j < votes.len() && #[trigger] in_slot(votes[j], vote.view, 0, VoteKind::ViewChange) && votes[j].sender == vote.sender;
        assert(votes[j].kind == VoteKind::ViewChange);
        assert(counts_for(votes[j], vote.view, 0, VoteKind::ViewChange, e));
        lemma_voters_contains(votes, vote.view, 0, VoteKind::ViewChange, e, vote.sender);
        assert(view_change_voters(votes, vote.view).insert(vote.sender) =~= view_change_voters(votes, vote.view));
    } else {
        let p = votes.push(vote);
        assert(p.drop_last() =~= votes);
        assert forall|i: int| 0 <= i < p.len() && (#[trigger] p[i]).kind == VoteKind::ViewChange implies p[i].block_id@ == e by {
            if i < votes.len() {
                assert(p[i] == votes[i]);
            }
        }
    }
}

/// One validator's consensus state.
pub struct Node {
    pub id: NodeId,
    pub state: ProtocolState,
    pub log: MessageLog,
    pub timeouts: TimeoutManager,
    /// The view that this node asks to move to while it is view changing.
    pub proposed_view: u64,
    /// The view-change requests received, one per sender and proposed view.
    pub view_changes: Vec<ViewChangeVote>,
}

/// In a well-formed node whose round has reached Preparing, the commit phase
/// (Committing, then Committed) is reached exactly when at least 2f + 1
/// distinct senders have Prepare votes for the working block's id in the
/// current (view, sequence). `Node::dispatch` keeps nodes well formed.
pub proof fn lemma_commit_iff_prepare_quorum(node: Node)
    requires
        node.wf(),
        node.state.phase == Phase::Preparing || node.state.phase == Phase::Committing
            || node.state.phase == Phase::Committed,
    ensures
        node.state.working_block is Some,
        (node.state.phase == Phase::Committing || node.state.phase == Phase::Committed) <==> voters(
            node.log.votes@,
            node.state.view,
            node.state.seq,
            VoteKind::Prepare,
            node.state.working_block->Some_0.block_id@,
        ).len() >= spec_quorum_size(node.state.membership@.len()),
{
}

/// The phase decision of a round does not depend on the order in which its
/// votes arrived: two nodes in the same state whose logs hold the same votes,
/// in any order, have the same prepare voters and agree on whether a prepare
/// quorum stands.
pub proof fn lemma_prepared_order_independent(a: Node, b: Node)
    requires
        a.state == b.state,
        a.log.votes@.to_multiset() == b.log.votes@.to_multiset(),
    ensures
        a.prepare_voters() == b.prepare_voters(),
        a.prepared() == b.prepared(),
{
    if a.state.working_block is Some {
        let id = a.state.working_block->Some_0.block_id@;
        lemma_voters_order_independent(a.log.votes@, b.log.votes@, a.state.view, a.state.seq, VoteKind::Prepare, id);
    }
}

/// The distinct senders of a NewView's requests.
pub open spec fn requesters(quorum: Seq<ViewChangeVote>) -> Set<NodeId> {
    Set::new(|s: NodeId| exists|k: int| 0 <= k < quorum.len() && #[trigger] quorum[k].sender == s)
}

/// Every request of a NewView's quorum asks for the NewView's view.
pub open spec fn all_for_view(quorum: Seq<ViewChangeVote>, view: u64) -> bool {
    forall|i: int| 0 <= i < quorum.len() ==> #[trigger] quorum[i].new_view == view
}

/// Once a round reached Preparing, its phase depends on which votes the log
/// holds and not on the order they arrived in: two well-formed nodes in the
/// same round, with the same working block, whose logs hold the same votes
/// in any order, are in the same phase. `Node::dispatch` keeps nodes well
/// formed and, on votes, moves a round only forward from Preparing.
pub proof fn lemma_phase_order_independent(a: Node, b: Node)
    requires
        a.wf(),
        b.wf(),
        a.state.view == b.state.view,
        a.state.seq == b.state.seq,
        a.state.working_block == b.state.working_block,
        a.state.membership@ == b.state.membership@,
        a.state.phase == Phase::Preparing || a.state.phase == Phase::Committing || a.state.phase == Phase::Committed,
        b.state.phase == Phase::Preparing || b.state.phase == Phase::Committing || b.state.phase == Phase::Committed,
        a.log.votes@.to_multiset() == b.log.votes@.to_multiset(),
    ensures
        a.state.phase == b.state.phase,
{
    let id = a.state.working_block->Some_0.block_id@;
    lemma_voters_order_independent(a.log.votes@, b.log.votes@, a.state.view, a.state.seq, VoteKind::Prepare, id);
    lemma_voters_order_independent(a.log.votes@, b.log.votes@, a.state.view, a.state.seq, VoteKind::Commit, id);
}

/// Checks that every request of a NewView's quorum asks for its view, and
/// that they come from at least a quorum of distinct senders for a
/// membership of `n` validators. The first request for another view is
/// reported with `ViewMismatch` (the view, the request's); too few senders
/// with `InternalError`.
fn check_new_view_quorum(view: u64, quorum: &Vec<ViewChangeVote>, n: u64) -> (r: Result<(), PbftError>)
    requires
        n >= 1,
    ensures
        r is Ok <==> all_for_view(quorum@, view) && requesters(quorum@).len() >= spec_quorum_size(n as nat),
        !all_for_view(quorum@, view) ==> (r matches Err(PbftError::ViewMismatch(e, _)) && e == view),
        all_for_view(quorum@, view) && requesters(quorum@).len() < spec_quorum_size(n as nat)
            ==> (r matches Err(PbftError::InternalError(_))),
{
    let ghost empty_id: Seq<u8> = Seq::empty();
    let mut tally = MessageLog::new();
    let mut i: usize = 0;
    while i < quorum.len()
        invariant
            empty_id == Seq::<u8>::empty(),
            tally.wf(),
            i <= quorum@.len(),
            forall|k: int| 0 <= k < i ==> #[trigger] quorum@[k].new_view == view,
            forall|j: int| 0 <= j < tally.votes@.len() ==> (#[trigger] tally.votes@[j]).block_id@ == empty_id,
            forall|s: NodeId| voters(tally.votes@, view, 0, VoteKind::ViewChange, empty_id).contains(s)
                <==> exists|k: int| 0 <= k < i && #[trigger] quorum@[k].sender == s,
        decreases quorum@.len() - i,
    {
        let vc = &quorum[i];
        if vc.new_view != view {
            return Err(PbftError::ViewMismatch(view, vc.new_view));
        }
        let ghost before = tally.votes@;
        let no_id: Vec<u8> = Vec::new();
        assert(no_id@ =~= empty_id);
        let vote = Vote { view, seq: 0, kind: VoteKind::ViewChange, sender: vc.sender, block_id: no_id };
        let ghost v = vote;
        match tally.record(vote) {
            Ok(_) => {},
            Err(e) => {
                proof {
                    let j = choose|j: int| 0 <= j < before.len() && #[trigger] in_slot(before[j], view, 0, VoteKind::ViewChange) && before[j].block_id@ != empty_id;
                    assert(before[j].block_id@ == empty_id);
                }
                return Err(e);
            },
        }
        proof {
            assert forall|s: NodeId| voters(tally.votes@, view, 0, VoteKind::ViewChange, empty_id).contains(s)
                <==> exists|k: int| 0 <= k < i + 1 && #[trigger] quorum@[k].sender == s by {
                lemma_voters_contains(before, view, 0, VoteKind::ViewChange, empty_id, s);
                if tally.votes@ == before {
                    if s == v.sender {
                        let j = choose|j: int| 0 <= j < before.len() && #[trigger] in_slot(before[j], view, 0, VoteKind::ViewChange) && before[j].sender == v.sender;
                        assert(counts_for(before[j], view, 0, VoteKind::ViewChange, empty_id));
                    }
                } else {
                    assert(tally.votes@.drop_last() =~= before);
                }
                if s == v.sender {
                    assert(quorum@[i as int].sender == s);
                }
                if exists|k: int| 0 <= k < i + 1 && #[trigger] quorum@[k].sender == s {
                    let k = choose|k: int| 0 <= k < i + 1 && #[trigger] quorum@[k].sender == s;
                    if k < i {
                        assert(exists|k: int| 0 <= k < i && #[trigger] quorum@[k].sender == s);
                    }
                }
            }
            assert forall|j: int| 0 <= j < tally.votes@.len() implies (#[trigger] tally.votes@[j]).block_id@ == empty_id by {
                if j >= before.len() {
                    assert(tally.votes@[j] == v);
                }
            }
        }
        i = i + 1;
    }
    let empty: Vec<u8> = Vec::new();
    assert(empty@ =~= empty_id);
    let count = tally.quorum_for(view, 0, VoteKind::ViewChange, &empty);
    assert(requesters(quorum@) =~= voters(tally.votes@, view, 0, VoteKind::ViewChange, empty_id));
    if (count as u64) < quorum_size(n) {
        return Err(PbftError::InternalError("NewView without a quorum of view changes".to_string()));
    }
    Ok(())
}

impl Node {
    pub open spec fn quorum(&self) -> nat {
        spec_quorum_size(self.state.membership@.len())
    }

    /// Distinct senders of Prepare votes for the working block in the current round.
    pub open spec fn prepare_voters(&self) -> Set<NodeId> {
        match self.state.working_block {
            Some(b) => voters(self.log.votes@, self.state.view, self.state.seq, VoteKind::Prepare, b.block_id@),
            None => Set::empty(),
        }
    }

    /// Distinct senders of Commit votes for the working block in the current round.
    pub open spec fn commit_voters(&self) -> Set<NodeId> {
        match self.state.working_block {
            Some(b) => voters(self.log.votes@, self.state.view, self.state.seq, VoteKind::Commit, b.block_id@),
            None => Set::empty(),
        }
    }

    /// A commit quorum stands for the working block of the current round.
    pub open spec fn commit_quorum(&self) -> bool {
        self.state.working_block is Some && self.commit_voters().len() >= self.quorum()
    }

    /// A prepare quorum stands for the working block of the current round.
    pub open spec fn prepared(&self) -> bool {
        self.state.working_block is Some && self.prepare_voters().len() >= self.quorum()
    }

    pub open spec fn wf_base(&self) -> bool {
        &&& self.state.wf()
        &&& self.log.wf()
        &&& (self.state.phase == Phase::Committing || self.state.phase == Phase::Committed) ==> self.prepared()
        &&& self.state.phase == Phase::Committed ==> self.commit_quorum()
        &&& self.state.phase == Phase::ViewChanging ==> self.proposed_view > self.state.view
        &&& view_change_ids_empty(self.log.votes@)
    }

    /// The node's invariant: once a round reached Preparing, it is past
    /// Preparing exactly when a prepare quorum stands for its working block,
    /// and past Committing exactly when a commit quorum does too.
    pub open spec fn wf(&self) -> bool {
        &&& self.wf_base()
        &&& self.state.phase == Phase::Preparing ==> !self.prepared()
        &&& self.state.phase == Phase::Committing ==> !self.commit_quorum()
    }

    /// A node with the given membership, at view 0 and sequence `seq`, with
    /// its round deadline armed from `now`.
    pub fn new(id: NodeId, membership: Vec<NodeId>, seq: u64, round_ms: u64, view_change_ms: u64, now: u64) -> (r: Node)
        requires
            1 <= membership@.len() < u64::MAX,
        ensures
            r.wf(),
            r.id == id,
            r.state.view == 0,
            r.state.seq == seq,
            r.state.phase == Phase::NotStarted,
            r.state.membership@ == membership@,
            r.log.votes@.len() == 0,
            r.timeouts.deadline == Some(cap((now + round_ms) as nat) as u64),
    {
        let mut timeouts = TimeoutManager::new(round_ms, view_change_ms);
        timeouts.arm(now, Phase::NotStarted);
        Node {
            id,
            state: ProtocolState::new(membership, seq),
            log: MessageLog::new(),
            timeouts,
            proposed_view: 0,
            view_changes: Vec::new(),
        }
    }

    /// The requesters of `vc.new_view` once `vc` is recorded.
    pub open spec fn requesters_with(&self, vc: ViewChangeVote) -> Set<NodeId> {
        view_change_voters(self.log.votes@, vc.new_view).insert(vc.sender)
    }

    /// Receiving `vc` makes this node join the view change: another sender's
    /// request brings the requesters of a view above the one it heads for to
    /// f + 1, and it does not wait for the chain.
    pub open spec fn joins_on(&self, vc: ViewChangeVote) -> bool {
        &&& vc.sender != self.id
        &&& self.requesters_with(vc).len() >= spec_weak_quorum_size(self.state.membership@.len())
        &&& self.state.phase != Phase::Committed
        &&& !(self.state.phase == Phase::ViewChanging && self.proposed_view >= vc.new_view)
    }

    /// The requesters of `vc.new_view` after `vc` and this node's own
    /// request, if it joins, are recorded.
    pub open spec fn requesters_after(&self, vc: ViewChangeVote) -> Set<NodeId> {
        if self.joins_on(vc) { self.requesters_with(vc).insert(self.id) } else { self.requesters_with(vc) }
    }

    /// Receiving `vc` makes this node, the primary of `vc.new_view`, send a
    /// NewView and adopt the view: 2f + 1 distinct senders request it.
    pub open spec fn announces_on(&self, vc: ViewChangeVote) -> bool {
        &&& self.id == self.state.spec_primary(vc.new_view)
        &&& self.requesters_after(vc).len() >= self.quorum()
        &&& self.state.phase != Phase::Committed
    }

    /// This node is the primary of `view`, and its own request completes a
    /// quorum of distinct requesters for it.
    pub open spec fn completes_own_quorum(&self, view: u64) -> bool {
        &&& self.id == self.state.spec_primary(view)
        &&& view_change_voters(self.log.votes@, view).insert(self.id).len() >= self.quorum()
    }

    /// The view an elapsed deadline makes this node request.
    pub open spec fn next_requested_view(&self) -> int {
        if self.state.phase == Phase::ViewChanging { self.proposed_view + 1 } else { self.state.view + 1 }
    }

    /// A NewView is adopted exactly when its primary sent it, its view is
    /// above the current one, the node is not waiting for the chain, and its
    /// requests all ask for that view and come from at least 2f + 1 distinct
    /// senders.
    pub open spec fn accepts_new_view(&self, view: u64, sender: NodeId, quorum: Seq<ViewChangeVote>) -> bool {
        &&& sender == self.state.spec_primary(view)
        &&& view > self.state.view
        &&& self.state.phase != Phase::Committed
        &&& all_for_view(quorum, view)
        &&& requesters(quorum).len() >= self.quorum()
    }

    /// Records a vote in the log, keeping the node's invariant but for the
    /// Preparing and Committing clauses, which `progress` restores.
    fn record_vote(&mut self, vote: Vote) -> (r: Result<usize, PbftError>)
        requires
            old(self).wf_base(),
            vote.kind == VoteKind::ViewChange ==> vote.block_id@ == Seq::<u8>::empty(),
        ensures
            final(self).wf_base(),
            final(self).id == old(self).id,
            final(self).state == old(self).state,
            final(self).proposed_view == old(self).proposed_view,
            old(self).state.working_block is Some && !counts_for(vote, old(self).state.view, old(self).state.seq, VoteKind::Prepare, old(self).state.working_block->Some_0.block_id@)
                ==> final(self).prepare_voters() == old(self).prepare_voters(),
            old(self).state.working_block is Some && !counts_for(vote, old(self).state.view, old(self).state.seq, VoteKind::Commit, old(self).state.working_block->Some_0.block_id@)
                ==> final(self).commit_voters() == old(self).commit_voters(),
            r matches Ok(c) ==> c as nat == voters(final(self).log.votes@, vote.view, vote.seq, vote.kind, vote.block_id@).len(),
            r is Ok ==> final(self).log.votes@ == after_record(old(self).log.votes@, vote),
            r is Err ==> final(self).log.votes@ == old(self).log.votes@,
            has_voted(old(self).log.votes@, vote.view, vote.seq, vote.kind, vote.sender) ==> r is Ok,
            !has_voted(old(self).log.votes@, vote.view, vote.seq, vote.kind, vote.sender)
                && conflicts(old(self).log.votes@, vote.view, vote.seq, vote.kind, vote.block_id@) ==> {
                &&& r matches Err(PbftError::MismatchedBlocks(ids))
                &&& ids@.len() == 2
                &&& ids@[1]@ == vote.block_id@
                &&& forall|j: int| 0 <= j < old(self).log.votes@.len()
                    && #[trigger] in_slot(old(self).log.votes@[j], vote.view, vote.seq, vote.kind)
                    ==> ids@[0]@ == old(self).log.votes@[j].block_id@
            },
            !has_voted(old(self).log.votes@, vote.view, vote.seq, vote.kind, vote.sender)
                && !conflicts(old(self).log.votes@, vote.view, vote.seq, vote.kind, vote.block_id@) ==> r is Ok,
            r matches Err(e) ==> e is MismatchedBlocks,
    {
        let ghost v = vote;
        let ghost before = self.log.votes@;
        let r = self.log.record(vote);
        proof {
            if self.state.working_block is Some {
                let b = self.state.working_block->Some_0;
                lemma_voters_push(before, v, self.state.view, self.state.seq, VoteKind::Prepare, b.block_id@);
                lemma_voters_push(before, v, self.state.view, self.state.seq, VoteKind::Commit, b.block_id@);
            }
            if r is Ok && self.log.votes@ != before {
                assert forall|i: int| 0 <= i < self.log.votes@.len() && (#[trigger] self.log.votes@[i]).kind == VoteKind::ViewChange
                    implies self.log.votes@[i].block_id@ == Seq::<u8>::empty() by {
                    if i < before.len() {
                        assert(self.log.votes@[i] == before[i]);
                    }
                }
            }
        }
        r
    }

    /// Moves on from Preparing and Committing as far as the recorded votes
    /// allow: at a prepare quorum for the working block the node enters
    /// Committing and records and broadcasts its own Commit; at a commit
    /// quorum it enters Committed.
    fn progress(&mut self, now: u64, actions: &mut Vec<Action>) -> (r: Result<(), PbftError>)
        requires
            old(self).wf_base(),
        ensures
            broadcasts_only(old(actions)@, final(actions)@),
            final(self).wf(),
            final(self).id == old(self).id,
            final(self).state.view == old(self).state.view,
            final(self).state.seq == old(self).state.seq,
            final(self).state.membership@ == old(self).state.membership@,
            final(self).state.working_block == old(self).state.working_block,
            final(self).proposed_view == old(self).proposed_view,
            extends(old(self).log.votes@, final(self).log.votes@),
            r matches Err(e) ==> e is MismatchedBlocks,
            old(self).state.phase != Phase::Preparing && old(self).state.phase != Phase::Committing
                ==> final(self).state.phase == old(self).state.phase,
            old(self).state.phase == Phase::Preparing ==> final(self).state.phase == Phase::Preparing
                || final(self).state.phase == Phase::Committing || final(self).state.phase == Phase::Committed,
            old(self).state.phase == Phase::Committing ==> final(self).state.phase == Phase::Committing
                || final(self).state.phase == Phase::Committed,
            r is Ok && old(self).state.phase == Phase::Preparing && final(self).state.phase != Phase::Preparing
                ==> exists|k: int| 0 <= k < final(actions)@.len() && #[trigger] is_commit_of(final(actions)@[k],
                    old(self).state.view, old(self).state.seq, old(self).state.working_block->Some_0.block_id@, old(self).id),
    {
        let n = self.state.size();
        let q = quorum_size(n);
        if self.state.phase == Phase::Preparing {
            let id = match &self.state.working_block {
                Some(b) => copy_bytes(&b.block_id),
                None => { return Err(PbftError::NoWorkingBlock); },
            };
            let count = self.log.quorum_for(self.state.view, self.state.seq, VoteKind::Prepare, &id);
            if (count as u64) < q {
                return Ok(());
            }
            let _ = self.state.advance(Trigger::PrepareQuorum);
            self.timeouts.arm(now, Phase::Committing);
            let own = Vote { view: self.state.view, seq: self.state.seq, kind: VoteKind::Commit, sender: self.id, block_id: copy_bytes(&id) };
            let ghost before = self.log.votes@;
            match self.record_vote(own) {
                Ok(_) => {},
                Err(e) => {
                    proof {
                        lemma_conflict_no_voters(before, self.state.view, self.state.seq, VoteKind::Commit, id@);
                    }
                    return Err(e);
                },
            }
            let ghost mid = actions@;
            actions.push(Action::Broadcast(ProtocolMessage::Commit { view: self.state.view, seq: self.state.seq, block_id: id, sender: self.id }));
            assert(is_commit_of(actions@[mid.len() as int], self.state.view, self.state.seq, id@, self.id));
        }
        if self.state.phase == Phase::Committing {
            let id = match &self.state.working_block {
                Some(b) => copy_bytes(&b.block_id),
                None => { return Err(PbftError::NoWorkingBlock); },
            };
            let count = self.log.quorum_for(self.state.view, self.state.seq, VoteKind::Commit, &id);
            if (count as u64) < q {
                return Ok(());
            }
            let _ = self.state.advance(Trigger::CommitQuorum);
            self.timeouts.cancel();
        }
        Ok(())
    }

    /// Handles a PrePrepare. A block not signed by the primary of the
    /// message's view is refused with `NotFromPrimary`; a message of another
    /// view with `ViewMismatch`; a second candidate for a round already under
    /// way with `MismatchedBlocks`. A PrePrepare for another sequence number,
    /// or a repeat of the working block, changes nothing. Otherwise the block
    /// becomes the working block, the node records and broadcasts its own
    /// Prepare, and moves on as far as the votes allow.
    fn on_pre_prepare(&mut self, view: u64, seq: u64, block: Block, now: u64, actions: &mut Vec<Action>) -> (r: Result<(), PbftError>)
        requires
            old(self).wf(),
        ensures
            broadcasts_only(old(actions)@, final(actions)@),
            final(self).wf(),
            final(self).id == old(self).id,
            final(self).state.membership@ == old(self).state.membership@,
            final(self).state.view == old(self).state.view,
            final(self).state.seq == old(self).state.seq,
            block.signer_id != old(self).state.spec_primary(view) ==> r == Err::<(), PbftError>(PbftError::NotFromPrimary) && final(self).state == old(self).state,
            block.signer_id == old(self).state.spec_primary(view) && view != old(self).state.view
                ==> r == Err::<(), PbftError>(PbftError::ViewMismatch(old(self).state.view, view)) && final(self).state == old(self).state,
            block.signer_id == old(self).state.spec_primary(view) && view == old(self).state.view && seq == old(self).state.seq
                && old(self).state.phase == Phase::NotStarted ==> {
                &&& final(self).state.working_block matches Some(b) && b.block_id@ == block.block_id@
                &&& final(self).state.phase != Phase::NotStarted && final(self).state.phase != Phase::ViewChanging
                &&& r matches Err(e) ==> e is MismatchedBlocks
                &&& r is Ok ==> exists|k: int| 0 <= k < final(actions)@.len()
                    && #[trigger] is_prepare_of(final(actions)@[k], view, seq, block.block_id@, old(self).id)
                &&& r is Ok && final(self).state.phase != Phase::Preparing ==> exists|k: int| 0 <= k < final(actions)@.len()
                    && #[trigger] is_commit_of(final(actions)@[k], view, seq, block.block_id@, old(self).id)
            },
    {
        if block.signer_id != self.state.primary(view) {
            return Err(PbftError::NotFromPrimary);
        }
        if view != self.state.view {
            return Err(PbftError::ViewMismatch(self.state.view, view));
        }
        if seq != self.state.seq {
            return Ok(());
        }
        if self.state.phase != Phase::NotStarted {
            return match &self.state.working_block {
                Some(w) => {
                    if w.same_block(&block) {
                        Ok(())
                    } else {
                        let mut ids: Vec<Vec<u8>> = Vec::new();
                        ids.push(copy_bytes(&w.block_id));
                        ids.push(copy_bytes(&block.block_id));
                        Err(PbftError::MismatchedBlocks(ids))
                    }
                },
                None => Ok(()),
            };
        }
        let id = copy_bytes(&block.block_id);
        let ghost block_id_view = block.block_id@;
        let _ = self.state.advance(Trigger::PrePrepare(block));
        let own = Vote { view, seq, kind: VoteKind::Prepare, sender: self.id, block_id: copy_bytes(&id) };
        match self.record_vote(own) {
            Ok(_) => {},
            Err(e) => {
                self.timeouts.arm(now, Phase::PrePreparing);
                return Err(e);
            },
        }
        let _ = self.state.advance(Trigger::Prepared);
        self.timeouts.arm(now, Phase::Preparing);
        let ghost a0 = actions@;
        actions.push(Action::Broadcast(ProtocolMessage::Prepare { view, seq, block_id: id, sender: self.id }));
        assert(is_prepare_of(actions@[a0.len() as int], view, seq, block_id_view, self.id));
        let r = self.progress(now, actions);
        assert(is_prepare_of(actions@[a0.len() as int], view, seq, block_id_view, self.id));
        r
    }

    /// The phase moved forward only as votes allow: from Preparing to
    /// Committing or Committed, from Committing to Committed, else not at all.
    pub open spec fn advanced_by_votes(before: Node, after: Node) -> bool {
        if before.state.phase == Phase::Preparing {
            after.state.phase == Phase::Preparing || after.state.phase == Phase::Committing
                || after.state.phase == Phase::Committed
        } else if before.state.phase == Phase::Committing {
            after.state.phase == Phase::Committing || after.state.phase == Phase::Committed
        } else {
            after.state.phase == before.state.phase
        }
    }

    /// The log after a vote was handled: unchanged if the vote conflicts
    /// with a recorded one, else holding the vote as `MessageLog::record`
    /// states, then possibly this node's own votes.
    pub open spec fn vote_taken(before: Seq<Vote>, after: Seq<Vote>, v: Vote) -> bool {
        if !has_voted(before, v.view, v.seq, v.kind, v.sender) && conflicts(before, v.view, v.seq, v.kind, v.block_id@) {
            after == before
        } else {
            extends(after_record(before, v), after)
        }
    }

    /// Handles a Prepare or Commit vote of the current view: records it and
    /// moves on as far as the votes allow. A vote of another view is refused
    /// with `ViewMismatch`.
    fn on_vote(&mut self, kind: VoteKind, view: u64, seq: u64, block_id: Vec<u8>, sender: NodeId, now: u64, actions: &mut Vec<Action>) -> (r: Result<(), PbftError>)
        requires
            old(self).wf(),
            kind == VoteKind::Prepare || kind == VoteKind::Commit,
        ensures
            broadcasts_only(old(actions)@, final(actions)@),
            final(self).wf(),
            final(self).id == old(self).id,
            final(self).state.membership@ == old(self).state.membership@,
            final(self).state.view == old(self).state.view,
            final(self).state.seq == old(self).state.seq,
            view != old(self).state.view ==> r == Err::<(), PbftError>(PbftError::ViewMismatch(old(self).state.view, view)) && final(self).state == old(self).state,
            view == old(self).state.view ==> Self::vote_taken(old(self).log.votes@, final(self).log.votes@, (Vote { view, seq, kind, sender, block_id })),
            view == old(self).state.view && !has_voted(old(self).log.votes@, view, seq, kind, sender)
                && conflicts(old(self).log.votes@, view, seq, kind, block_id@) ==> {
                &&& r matches Err(PbftError::MismatchedBlocks(ids))
                &&& ids@.len() == 2
                &&& ids@[1]@ == block_id@
                &&& forall|j: int| 0 <= j < old(self).log.votes@.len()
                    && #[trigger] in_slot(old(self).log.votes@[j], view, seq, kind)
                    ==> ids@[0]@ == old(self).log.votes@[j].block_id@
                &&& final(self).state == old(self).state
            },
            view == old(self).state.view ==> (r matches Err(e) ==> e is MismatchedBlocks),
            old(self).state.phase != Phase::Preparing && old(self).state.phase != Phase::Committing
                ==> final(self).state.phase == old(self).state.phase,
            old(self).state.phase == Phase::Preparing ==> final(self).state.phase == Phase::Preparing
                || final(self).state.phase == Phase::Committing || final(self).state.phase == Phase::Committed,
            old(self).state.phase == Phase::Committing ==> final(self).state.phase == Phase::Committing
                || final(self).state.phase == Phase::Committed,
            final(self).state.working_block == old(self).state.working_block,
            r is Ok && old(self).state.phase == Phase::Preparing && final(self).state.phase != Phase::Preparing
                ==> exists|k: int| 0 <= k < final(actions)@.len() && #[trigger] is_commit_of(final(actions)@[k],
                    old(self).state.view, old(self).state.seq, old(self).state.working_block->Some_0.block_id@, old(self).id),
    {
        if view != self.state.view {
            return Err(PbftError::ViewMismatch(self.state.view, view));
        }
        let vote = Vote { view, seq, kind, sender, block_id };
        match self.record_vote(vote) {
            Ok(_) => {},
            Err(e) => { return Err(e); },
        }
        self.progress(now, actions)
    }

    /// Adopts a validated new view: starts afresh at the current sequence
    /// number with the round deadline armed, and forgets the round of the
    /// old view and the view-change requests that the new view supersedes.
    fn adopt_view(&mut self, view: u64, now: u64)
        requires
            old(self).wf(),
            view > old(self).state.view,
            old(self).state.phase != Phase::Committed,
        ensures
            final(self).wf(),
            final(self).id == old(self).id,
            final(self).state.membership@ == old(self).state.membership@,
            final(self).state.view == view,
            final(self).state.seq == old(self).state.seq,
            final(self).state.phase == Phase::NotStarted,
            final(self).proposed_view == old(self).proposed_view,
    {
        let old_view = self.state.view;
        let _ = self.state.advance(Trigger::NewView(view));
        let ghost l0 = self.log.votes@;
        self.log.purge(old_view, self.state.seq);
        proof { lemma_filter_view_change_ids_empty(l0, crate::log::outside_round(old_view, self.state.seq)); }
        let ghost l1 = self.log.votes@;
        self.log.purge_view_changes(view);
        proof { lemma_filter_view_change_ids_empty(l1, crate::log::not_superseded(view)); }
        let mut kept: Vec<ViewChangeVote> = Vec::new();
        let mut i: usize = 0;
        while i < self.view_changes.len()
            invariant
                i <= self.view_changes@.len(),
            decreases self.view_changes@.len() - i,
        {
            let vc = &self.view_changes[i];
            if vc.new_view > view {
                kept.push(ViewChangeVote { new_view: vc.new_view, sender: vc.sender, last_stable_seq: vc.last_stable_seq });
            }
            i = i + 1;
        }
        self.view_changes = kept;
        self.timeouts.arm(now, Phase::NotStarted);
    }

    /// The view-change requests received for a proposed view.
    fn view_change_quorum(&self, view: u64) -> (r: Vec<ViewChangeVote>)
        ensures
            forall|i: int| 0 <= i < r@.len() ==> #[trigger] r@[i].new_view == view,
    {
        let mut out: Vec<ViewChangeVote> = Vec::new();
        let mut i: usize = 0;
        while i < self.view_changes.len()
            invariant
                i <= self.view_changes@.len(),
                forall|k: int| 0 <= k < out@.len() ==> #[trigger] out@[k].new_view == view,
            decreases self.view_changes@.len() - i,
        {
            let vc = &self.view_changes[i];
            if vc.new_view == view {
                out.push(ViewChangeVote { new_view: vc.new_view, sender: vc.sender, last_stable_seq: vc.last_stable_seq });
            }
            i = i + 1;
        }
        out
    }

    /// Records a view-change request. When f + 1 distinct senders other than
    /// this node ask for a view above the one it is heading for, and it is
    /// not waiting for the chain, it joins: it abandons its round, proposes
    /// that view, and records and broadcasts its own request. When this node
    /// is the primary of the proposed view, is not waiting for the chain,
    /// and a quorum of distinct senders asks for the view, it broadcasts a
    /// NewView and adopts the view.
    fn collect_view_change(&mut self, vc: ViewChangeVote, now: u64, actions: &mut Vec<Action>) -> (r: Result<(), PbftError>)
        requires
            old(self).wf(),
            vc.new_view > old(self).state.view,
        ensures
            broadcasts_only(old(actions)@, final(actions)@),
            final(self).wf(),
            final(self).id == old(self).id,
            final(self).state.membership@ == old(self).state.membership@,
            final(self).state.seq == old(self).state.seq,
            r is Ok,
            old(self).joins_on(vc) ==> exists|k: int| 0 <= k < final(actions)@.len()
                && #[trigger] is_view_change_of(final(actions)@[k], vc.new_view, old(self).id),
            old(self).announces_on(vc) ==> {
                &&& final(self).state.view == vc.new_view
                &&& final(self).state.phase == Phase::NotStarted
                &&& exists|k: int| 0 <= k < final(actions)@.len()
                    && #[trigger] is_new_view_of(final(actions)@[k], vc.new_view, old(self).id)
            },
            !old(self).announces_on(vc) ==> {
                &&& final(self).state.view == old(self).state.view
                &&& view_change_voters(final(self).log.votes@, vc.new_view) == old(self).requesters_after(vc)
                &&& old(self).joins_on(vc) ==> final(self).state.phase == Phase::ViewChanging
                    && final(self).proposed_view == vc.new_view
                &&& !old(self).joins_on(vc) ==> final(self).state.phase == old(self).state.phase
                    && final(self).proposed_view == old(self).proposed_view
            },
    {
        let view = vc.new_view;
        let sender = vc.sender;
        let before = self.log.len();
        let vote = Vote { view, seq: 0, kind: VoteKind::ViewChange, sender, block_id: Vec::new() };
        let ghost l0 = self.log.votes@;
        let ghost v0 = vote;
        proof {
            lemma_view_change_record(l0, v0);
            lemma_voters_finite(l0, view, 0, VoteKind::ViewChange, Seq::empty());
        }
        let mut count = match self.record_vote(vote) {
            Ok(c) => c,
            Err(e) => { return Err(e); },
        };
        assert(view_change_voters(self.log.votes@, view) == old(self).requesters_with(vc));
        if self.log.len() > before {
            self.view_changes.push(vc);
        }
        let n = self.state.size();
        let ghost mut join_at: int = 0;
        let heading = self.state.phase == Phase::ViewChanging && self.proposed_view >= view;
        if sender != self.id && (count as u64) >= weak_quorum_size(n) && self.state.phase != Phase::Committed && !heading {
            if self.state.phase != Phase::ViewChanging {
                let _ = self.state.advance(Trigger::DeadlineElapsed);
            }
            self.proposed_view = view;
            self.timeouts.arm(now, Phase::ViewChanging);
            let last_stable_seq = if self.state.seq > 0 { self.state.seq - 1 } else { 0 };
            let own_before = self.log.len();
            let own = Vote { view, seq: 0, kind: VoteKind::ViewChange, sender: self.id, block_id: Vec::new() };
            let ghost l1 = self.log.votes@;
            let ghost v1 = own;
            proof { lemma_view_change_record(l1, v1); }
            count = match self.record_vote(own) {
                Ok(c) => c,
                Err(e) => { return Err(e); },
            };
            if self.log.len() > own_before {
                self.view_changes.push(ViewChangeVote { new_view: view, sender: self.id, last_stable_seq });
            }
            let ghost a0 = actions@;
            actions.push(Action::Broadcast(ProtocolMessage::ViewChange(ViewChangeVote { new_view: view, sender: self.id, last_stable_seq })));
            assert(is_view_change_of(actions@[a0.len() as int], view, self.id));
            proof { join_at = a0.len() as int; }
        }
        if self.id == self.state.primary(view) && (count as u64) >= quorum_size(n) && self.state.phase != Phase::Committed {
            let quorum = self.view_change_quorum(view);
            let ghost a1 = actions@;
            actions.push(Action::Broadcast(ProtocolMessage::NewView { view, sender: self.id, quorum }));
            assert(is_new_view_of(actions@[a1.len() as int], view, self.id));
            self.adopt_view(view, now);
        }
        assert(old(self).joins_on(vc) ==> 0 <= join_at < actions@.len() && is_view_change_of(actions@[join_at], view, self.id));
        Ok(())
    }

    /// Handles an elapsed deadline. Outside Committed the node abandons its
    /// round, proposes the next view (one past the view it proposed already,
    /// if it is view changing, with a doubled deadline), records and
    /// broadcasts its own ViewChange. While Committed, where it waits for the
    /// chain, nothing changes. A view number that would overflow is refused
    /// with `InternalError`.
    fn on_timeout(&mut self, now: u64, actions: &mut Vec<Action>) -> (r: Result<(), PbftError>)
        requires
            old(self).wf(),
        ensures
            broadcasts_only(old(actions)@, final(actions)@),
            final(self).wf(),
            final(self).id == old(self).id,
            final(self).state.membership@ == old(self).state.membership@,
            final(self).state.view >= old(self).state.view,
            final(self).state.seq == old(self).state.seq,
            old(self).state.phase == Phase::Committed ==> r is Ok && final(self).state == old(self).state
                && final(actions)@ == old(actions)@,
            r is Err ==> final(self).state == old(self).state,
            old(self).state.phase != Phase::Committed && old(self).next_requested_view() > u64::MAX
                ==> (r matches Err(PbftError::InternalError(_))),
            old(self).state.phase != Phase::Committed && old(self).next_requested_view() <= u64::MAX ==> {
                &&& r is Ok
                &&& exists|k: int| 0 <= k < final(actions)@.len() && #[trigger] is_view_change_of(final(actions)@[k],
                    old(self).next_requested_view() as u64, old(self).id)
                &&& old(self).completes_own_quorum(old(self).next_requested_view() as u64) ==> {
                    &&& final(self).state.view == old(self).next_requested_view()
                    &&& final(self).state.phase == Phase::NotStarted
                }
                &&& !old(self).completes_own_quorum(old(self).next_requested_view() as u64) ==> {
                    &&& final(self).state.view == old(self).state.view
                    &&& final(self).state.phase == Phase::ViewChanging
                    &&& final(self).proposed_view == old(self).next_requested_view()
                }
            },
    {
        if self.state.phase == Phase::Committed {
            return Ok(());
        }
        let target = if self.state.phase == Phase::ViewChanging { self.proposed_view } else { self.state.view };
        if target == u64::MAX {
            return Err(PbftError::InternalError("view number overflow".to_string()));
        }
        if self.state.phase == Phase::ViewChanging {
            self.timeouts.escalate();
        } else {
            let _ = self.state.advance(Trigger::DeadlineElapsed);
        }
        let view = target + 1;
        self.proposed_view = view;
        self.timeouts.arm(now, Phase::ViewChanging);
        let last_stable_seq = if self.state.seq > 0 { self.state.seq - 1 } else { 0 };
        let ghost a0 = actions@;
        actions.push(Action::Broadcast(ProtocolMessage::ViewChange(ViewChangeVote { new_view: view, sender: self.id, last_stable_seq })));
        assert(is_view_change_of(actions@[a0.len() as int], view, self.id));
        let own = ViewChangeVote { new_view: view, sender: self.id, last_stable_seq };
        let ghost mid = *self;
        let r = self.collect_view_change(own, now, actions);
        assert(is_view_change_of(actions@[a0.len() as int], view, self.id));
        assert(!mid.joins_on(own));
        assert(mid.requesters_after(own) == view_change_voters(old(self).log.votes@, view).insert(self.id));
        r
    }

    /// Handles a NewView. One not sent by the primary of its view is refused
    /// with `NotFromPrimary`; one for a view not above the current view with
    /// `ViewMismatch`; one holding a request for another view with
    /// `ViewMismatch` (the NewView's view, the request's); one whose requests
    /// come from fewer than a quorum of distinct senders with
    /// `InternalError`. While Committed, where the node waits for the chain,
    /// a NewView is refused with `ViewMismatch` for the caller to deliver
    /// again later. A valid one is adopted.
    fn on_new_view(&mut self, view: u64, sender: NodeId, quorum: Vec<ViewChangeVote>, now: u64) -> (r: Result<(), PbftError>)
        requires
            old(self).wf(),
        ensures
            final(self).wf(),
            final(self).id == old(self).id,
            final(self).state.membership@ == old(self).state.membership@,
            final(self).state.seq == old(self).state.seq,
            r is Ok ==> final(self).state.view == view && view > old(self).state.view && final(self).state.phase == Phase::NotStarted,
            r is Ok <==> old(self).accepts_new_view(view, sender, quorum@),
            r is Err ==> final(self).state == old(self).state,
            sender != old(self).state.spec_primary(view) ==> r == Err::<(), PbftError>(PbftError::NotFromPrimary),
            sender == old(self).state.spec_primary(view) && view <= old(self).state.view
                ==> r == Err::<(), PbftError>(PbftError::ViewMismatch(old(self).state.view, view)),
    {
        if sender != self.state.primary(view) {
            return Err(PbftError::NotFromPrimary);
        }
        if view <= self.state.view || self.state.phase == Phase::Committed {
            return Err(PbftError::ViewMismatch(self.state.view, view));
        }
        match check_new_view_quorum(view, &quorum, self.state.size()) {
            Ok(()) => {},
            Err(e) => { return Err(e); },
        }
        self.adopt_view(view, now);
        Ok(())
    }

    /// Handles the chain's acknowledgement of a commit: discards the round's
    /// votes and starts the next sequence number. Without a working block it
    /// is refused with `NoWorkingBlock`; outside Committed with `InternalError`.
    fn on_chain_committed(&mut self, now: u64) -> (r: Result<(), PbftError>)
        requires
            old(self).wf(),
        ensures
            final(self).wf(),
            final(self).id == old(self).id,
            final(self).state.membership@ == old(self).state.membership@,
            final(self).state.view == old(self).state.view,
            old(self).state.working_block is None ==> r == Err::<(), PbftError>(PbftError::NoWorkingBlock),
            r is Err ==> final(self).state == old(self).state,
            old(self).state.phase == Phase::Committed && old(self).state.seq < u64::MAX ==> {
                &&& r is Ok
                &&& final(self).state.phase == Phase::NotStarted
                &&& final(self).state.seq == old(self).state.seq + 1
            },
    {
        if self.state.working_block.is_none() {
            return Err(PbftError::NoWorkingBlock);
        }
        let seq = self.state.seq;
        match self.state.advance(Trigger::ChainCommitted) {
            Ok(_) => {},
            Err(e) => { return Err(e); },
        }
        let ghost l0 = self.log.votes@;
        self.log.purge(self.state.view, seq);
        proof { lemma_filter_view_change_ids_empty(l0, crate::log::outside_round(self.state.view, seq)); }
        self.timeouts.reset_backoff();
        self.timeouts.arm(now, Phase::NotStarted);
        Ok(())
    }

    /// The log after a checkpoint vote was handled: unchanged if the vote
    /// conflicts; else the vote recorded, and, once a quorum of distinct
    /// senders agrees on the digest of a sequence number not above the
    /// current one, the votes below it dropped.
    pub open spec fn checkpoint_taken(before: Node, after: Seq<Vote>, v: Vote) -> bool {
        let votes = before.log.votes@;
        if !has_voted(votes, v.view, v.seq, v.kind, v.sender) && conflicts(votes, v.view, v.seq, v.kind, v.block_id@) {
            after == votes
        } else {
            let mid = after_record(votes, v);
            after == if voters(mid, v.view, v.seq, v.kind, v.block_id@).len() >= before.quorum() && v.seq <= before.state.seq {
                mid.filter(at_or_above(v.seq))
            } else {
                mid
            }
        }
    }

    /// Handles a checkpoint vote; once a quorum of distinct senders agrees on
    /// the state digest of a sequence number not above the current one,
    /// discards the prepare, commit and checkpoint votes below it.
    fn on_checkpoint(&mut self, seq: u64, state_digest: Vec<u8>, sender: NodeId) -> (r: Result<(), PbftError>)
        requires
            old(self).wf(),
        ensures
            final(self).wf(),
            final(self).id == old(self).id,
            final(self).state == old(self).state,
            Self::checkpoint_taken(*old(self), final(self).log.votes@, (Vote { view: 0, seq, kind: VoteKind::Checkpoint, sender, block_id: state_digest })),
            !has_voted(old(self).log.votes@, 0, seq, VoteKind::Checkpoint, sender)
                && conflicts(old(self).log.votes@, 0, seq, VoteKind::Checkpoint, state_digest@)
                <==> (r matches Err(PbftError::MismatchedBlocks(_))),
            r matches Err(e) ==> e is MismatchedBlocks,
    {
        let vote = Vote { view: 0, seq, kind: VoteKind::Checkpoint, sender, block_id: state_digest };
        let count = match self.record_vote(vote) {
            Ok(c) => c,
            Err(e) => { return Err(e); },
        };
        if (count as u64) >= quorum_size(self.state.size()) && seq <= self.state.seq {
            let ghost before = self.log.votes@;
            self.log.purge_before(seq);
            proof {
                if self.state.working_block is Some {
                    let b = self.state.working_block->Some_0;
                    lemma_voters_filter(before, at_or_above(seq), self.state.view, self.state.seq, VoteKind::Prepare, b.block_id@);
                    lemma_voters_filter(before, at_or_above(seq), self.state.view, self.state.seq, VoteKind::Commit, b.block_id@);
                }
                lemma_filter_view_change_ids_empty(before, at_or_above(seq));
            }
        }
        Ok(())
    }

    /// Handles one event and returns the actions for the caller to carry
    /// out, in order: broadcasts, then, when the event brought the node to
    /// Committed, one `CommitBlock` of the working block. Errors are those of
    /// the handler the event goes to; a ViewChange for a view not above the
    /// current one is refused with `ViewMismatch`.
    pub fn dispatch(&mut self, event: Event, now: u64) -> (r: Result<Vec<Action>, PbftError>)
        requires
            old(self).wf(),
        ensures
            final(self).wf(),
            final(self).id == old(self).id,
            final(self).state.membership@ == old(self).state.membership@,
            final(self).state.view >= old(self).state.view,
            r matches Ok(acts) ==> {
                let entered = old(self).state.phase != Phase::Committed && final(self).state.phase == Phase::Committed;
                &&& forall|i: int| 0 <= i < acts@.len() - 1 ==> (#[trigger] acts@[i]) is Broadcast
                &&& acts@.len() > 0 ==> (acts@.last() is CommitBlock <==> entered)
                &&& entered ==> acts@.len() > 0 && final(self).state.working_block is Some
                    && acts@.last() is CommitBlock
                    && acts@.last()->CommitBlock_0.block_id@ == final(self).state.working_block->Some_0.block_id@
            },
            r is Err ==> final(self).state.view == old(self).state.view,
            match event {
                Event::Message(ProtocolMessage::PrePrepare { view, seq, block }) => {
                    &&& block.signer_id != old(self).state.spec_primary(view)
                        ==> (r matches Err(PbftError::NotFromPrimary) && final(self).state == old(self).state)
                    &&& block.signer_id == old(self).state.spec_primary(view) && view != old(self).state.view
                        ==> (r matches Err(PbftError::ViewMismatch(e, g)) && e == old(self).state.view && g == view
                            && final(self).state == old(self).state)
                    &&& block.signer_id == old(self).state.spec_primary(view) && view == old(self).state.view
                        && seq == old(self).state.seq && old(self).state.phase == Phase::NotStarted ==> {
                        &&& final(self).state.working_block is Some
                        &&& final(self).state.working_block->Some_0.block_id@ == block.block_id@
                        &&& final(self).state.phase != Phase::NotStarted && final(self).state.phase != Phase::ViewChanging
                        &&& r matches Err(e) ==> e is MismatchedBlocks
                        &&& r matches Ok(acts) ==> exists|k: int| 0 <= k < acts@.len()
                            && #[trigger] is_prepare_of(acts@[k], view, seq, block.block_id@, old(self).id)
                        &&& r matches Ok(acts) ==> (final(self).state.phase != Phase::Preparing ==> exists|k: int|
                            0 <= k < acts@.len() && #[trigger] is_commit_of(acts@[k], view, seq, block.block_id@, old(self).id))
                    }
                },
                Event::Message(ProtocolMessage::Prepare { view, seq, block_id, sender }) => {
                    &&& view != old(self).state.view
                        ==> (r matches Err(PbftError::ViewMismatch(e, g)) && e == old(self).state.view && g == view
                            && final(self).state == old(self).state)
                    &&& view == old(self).state.view ==> {
                        &&& Self::vote_taken(old(self).log.votes@, final(self).log.votes@,
                            (Vote { view, seq, kind: VoteKind::Prepare, sender, block_id }))
                        &&& !has_voted(old(self).log.votes@, view, seq, VoteKind::Prepare, sender)
                            && conflicts(old(self).log.votes@, view, seq, VoteKind::Prepare, block_id@) ==> {
                            &&& r matches Err(PbftError::MismatchedBlocks(ids))
                            &&& ids@.len() == 2
                            &&& ids@[1]@ == block_id@
                            &&& forall|j: int| 0 <= j < old(self).log.votes@.len()
                                && #[trigger] in_slot(old(self).log.votes@[j], view, seq, VoteKind::Prepare)
                                ==> ids@[0]@ == old(self).log.votes@[j].block_id@
                            &&& final(self).state == old(self).state
                        }
                        &&& r matches Err(e) ==> e is MismatchedBlocks
                        &&& Self::advanced_by_votes(*old(self), *final(self))
                        &&& r matches Ok(acts) ==> (old(self).state.phase == Phase::Preparing
                            && final(self).state.phase != Phase::Preparing ==> exists|k: int| 0 <= k < acts@.len()
                            && #[trigger] is_commit_of(acts@[k], old(self).state.view, old(self).state.seq,
                                old(self).state.working_block->Some_0.block_id@, old(self).id))
                    }
                },
                Event::Message(ProtocolMessage::Commit { view, seq, block_id, sender }) => {
                    &&& view != old(self).state.view
                        ==> (r matches Err(PbftError::ViewMismatch(e, g)) && e == old(self).state.view && g == view
                            && final(self).state == old(self).state)
                    &&& view == old(self).state.view ==> {
                        &&& Self::vote_taken(old(self).log.votes@, final(self).log.votes@,
                            (Vote { view, seq, kind: VoteKind::Commit, sender, block_id }))
                        &&& !has_voted(old(self).log.votes@, view, seq, VoteKind::Commit, sender)
                            && conflicts(old(self).log.votes@, view, seq, VoteKind::Commit, block_id@) ==> {
                            &&& r matches Err(PbftError::MismatchedBlocks(ids))
                            &&& ids@.len() == 2
                            &&& ids@[1]@ == block_id@
                            &&& forall|j: int| 0 <= j < old(self).log.votes@.len()
                                && #[trigger] in_slot(old(self).log.votes@[j], view, seq, VoteKind::Commit)
                                ==> ids@[0]@ == old(self).log.votes@[j].block_id@
                            &&& final(self).state == old(self).state
                        }
                        &&& r matches Err(e) ==> e is MismatchedBlocks
                        &&& Self::advanced_by_votes(*old(self), *final(self))
                        &&& r matches Ok(acts) ==> (old(self).state.phase == Phase::Preparing
                            && final(self).state.phase != Phase::Preparing ==> exists|k: int| 0 <= k < acts@.len()
                            && #[trigger] is_commit_of(acts@[k], old(self).state.view, old(self).state.seq,
                                old(self).state.working_block->Some_0.block_id@, old(self).id))
                    }
                },
                Event::Message(ProtocolMessage::ViewChange(vc)) => {
                    &&& vc.new_view <= old(self).state.view
                        ==> (r matches Err(PbftError::ViewMismatch(e, g)) && e == old(self).state.view && g == vc.new_view
                            && final(self).state == old(self).state)
                    &&& vc.new_view > old(self).state.view ==> {
                        &&& r is Ok
                        &&& old(self).joins_on(vc) ==> (r matches Ok(acts) && exists|k: int| 0 <= k < acts@.len()
                            && #[trigger] is_view_change_of(acts@[k], vc.new_view, old(self).id))
                        &&& old(self).announces_on(vc) ==> {
                            &&& final(self).state.view == vc.new_view
                            &&& final(self).state.phase == Phase::NotStarted
                            &&& r matches Ok(acts) && exists|k: int| 0 <= k < acts@.len()
                                && #[trigger] is_new_view_of(acts@[k], vc.new_view, old(self).id)
                        }
                        &&& !old(self).announces_on(vc) ==> {
                            &&& final(self).state.view == old(self).state.view
                            &&& view_change_voters(final(self).log.votes@, vc.new_view) == old(self).requesters_after(vc)
                            &&& old(self).joins_on(vc) ==> final(self).state.phase == Phase::ViewChanging
                                && final(self).proposed_view == vc.new_view
                            &&& !old(self).joins_on(vc) ==> final(self).state.phase == old(self).state.phase
                                && final(self).proposed_view == old(self).proposed_view
                        }
                    }
                },
                Event::ChainCommitted => {
                    &&& old(self).state.working_block is None ==> (r matches Err(PbftError::NoWorkingBlock))
                    &&& old(self).state.phase == Phase::Committed && old(self).state.seq < u64::MAX ==> {
                        &&& r is Ok
                        &&& final(self).state.phase == Phase::NotStarted
                        &&& final(self).state.seq == old(self).state.seq + 1
                    }
                },
                Event::Message(ProtocolMessage::NewView { view, sender, quorum }) => {
                    &&& r is Ok <==> old(self).accepts_new_view(view, sender, quorum@)
                    &&& r is Ok ==> final(self).state.view == view && final(self).state.phase == Phase::NotStarted
                    &&& r is Err ==> final(self).state == old(self).state
                },
                Event::Timeout => {
                    &&& old(self).state.phase == Phase::Committed ==> (r matches Ok(acts) && acts@.len() == 0
                        && final(self).state == old(self).state)
                    &&& old(self).state.phase != Phase::Committed && old(self).next_requested_view() > u64::MAX
                        ==> (r matches Err(PbftError::InternalError(_)) && final(self).state == old(self).state)
                    &&& old(self).state.phase != Phase::Committed && old(self).next_requested_view() <= u64::MAX ==> {
                        &&& r matches Ok(acts) && exists|k: int| 0 <= k < acts@.len() && #[trigger] is_view_change_of(acts@[k],
                            old(self).next_requested_view() as u64, old(self).id)
                        &&& old(self).completes_own_quorum(old(self).next_requested_view() as u64) ==> {
                            &&& final(self).state.view == old(self).next_requested_view()
                            &&& final(self).state.phase == Phase::NotStarted
                        }
                        &&& !old(self).completes_own_quorum(old(self).next_requested_view() as u64) ==> {
                            &&& final(self).state.view == old(self).state.view
                            &&& final(self).state.phase == Phase::ViewChanging
                            &&& final(self).proposed_view == old(self).next_requested_view()
                        }
                    }
                },
                Event::Message(ProtocolMessage::Checkpoint { seq, state_digest, sender }) => {
                    &&& final(self).state == old(self).state
                    &&& Self::checkpoint_taken(*old(self), final(self).log.votes@,
                        (Vote { view: 0, seq, kind: VoteKind::Checkpoint, sender, block_id: state_digest }))
                    &&& r matches Err(e) ==> e is MismatchedBlocks
                    &&& (r is Err <==> !has_voted(old(self).log.votes@, 0, seq, VoteKind::Checkpoint, sender)
                        && conflicts(old(self).log.votes@, 0, seq, VoteKind::Checkpoint, state_digest@))
                },
            },
    {
        let was_committed = self.state.phase == Phase::Committed;
        let mut actions: Vec<Action> = Vec::new();
        let result = match event {
            Event::Message(msg) => match msg {
                ProtocolMessage::PrePrepare { view, seq, block } => self.on_pre_prepare(view, seq, block, now, &mut actions),
                ProtocolMessage::Prepare { view, seq, block_id, sender } =>
                    self.on_vote(VoteKind::Prepare, view, seq, block_id, sender, now, &mut actions),
                ProtocolMessage::Commit { view, seq, block_id, sender } =>
                    self.on_vote(VoteKind::Commit, view, seq, block_id, sender, now, &mut actions),
                ProtocolMessage::ViewChange(vc) => {
                    if vc.new_view <= self.state.view {
                        Err(PbftError::ViewMismatch(self.state.view, vc.new_view))
                    } else {
                        self.collect_view_change(vc, now, &mut actions)
                    }
                },
                ProtocolMessage::NewView { view, sender, quorum } => self.on_new_view(view, sender, quorum, now),
                ProtocolMessage::Checkpoint { seq, state_digest, sender } => self.on_checkpoint(seq, state_digest, sender),
            },
            Event::Timeout => self.on_timeout(now, &mut actions),
            Event::ChainCommitted => self.on_chain_committed(now),
        };
        match result {
            Ok(()) => {
                if !was_committed && self.state.phase == Phase::Committed {
                    let block = match &self.state.working_block {
                        Some(b) => b.copy(),
                        None => { return Err(PbftError::NoWorkingBlock); },
                    };
                    let ghost pre = actions@;
                    actions.push(Action::CommitBlock(block));
                    assert(forall|k: int| 0 <= k < pre.len() ==> #[trigger] pre[k] == actions@[k]);
                }
                Ok(actions)
            },
            Err(e) => Err(e),
        }
    }

    /// The response to an error that `dispatch` returned. Block ids in
    /// conflict abort the round: outside Committed and ViewChanging the node
    /// starts a view change as if its deadline had elapsed, and the actions
    /// to carry out are returned. Every other error is handled by dropping
    /// the message, and changes nothing.
    pub fn recover(&mut self, err: &PbftError, now: u64) -> (r: Vec<Action>)
        requires
            old(self).wf(),
        ensures
            final(self).wf(),
            final(self).id == old(self).id,
            final(self).state.membership@ == old(self).state.membership@,
            final(self).state.view >= old(self).state.view,
            final(self).state.seq == old(self).state.seq,
            forall|i: int| 0 <= i < r@.len() ==> (#[trigger] r@[i]) is Broadcast,
            !(err is MismatchedBlocks) || old(self).state.phase == Phase::Committed
                || old(self).state.phase == Phase::ViewChanging ==> final(self).state == old(self).state && r@.len() == 0,
            err is MismatchedBlocks && old(self).state.phase != Phase::Committed && old(self).state.phase != Phase::ViewChanging
                && old(self).state.view < u64::MAX ==> {
                &&& old(self).completes_own_quorum((old(self).state.view + 1) as u64) ==> {
                    &&& final(self).state.view == old(self).state.view + 1
                    &&& final(self).state.phase == Phase::NotStarted
                }
                &&& !old(self).completes_own_quorum((old(self).state.view + 1) as u64) ==> {
                    &&& final(self).state.view == old(self).state.view
                    &&& final(self).state.phase == Phase::ViewChanging
                    &&& final(self).proposed_view == old(self).state.view + 1
                }
            },
            err is MismatchedBlocks && old(self).state.phase != Phase::Committed && old(self).state.phase != Phase::ViewChanging
                && old(self).state.view < u64::MAX ==> exists|k: int| 0 <= k < r@.len()
                && #[trigger] is_view_change_of(r@[k], (old(self).state.view + 1) as u64, old(self).id),
    {
        let mut actions: Vec<Action> = Vec::new();
        let abort = match err {
            PbftError::MismatchedBlocks(_) => self.state.phase != Phase::Committed && self.state.phase != Phase::ViewChanging,
            _ => false,
        };
        if abort {
            let _ = self.on_timeout(now, &mut actions);
        }
        actions
    }

    /// The id of the working block; `NoWorkingBlock` when there is none.
    pub fn working_block_id(&self) -> (r: Result<Vec<u8>, PbftError>)
        ensures
            match self.state.working_block {
                Some(b) => r matches Ok(id) && id@ == b.block_id@,
                None => r matches Err(PbftError::NoWorkingBlock),
            },
    {
        match &self.state.working_block {
            Some(b) => Ok(copy_bytes(&b.block_id)),
            None => Err(PbftError::NoWorkingBlock),
        }
    }

    /// Whether the armed deadline has passed at `now`.
    pub fn deadline_passed(&self, now: u64) -> (r: bool)
        ensures
            r == (self.timeouts.deadline matches Some(d) && now >= d),
    {
        self.timeouts.expired(now)
    }
}

} // verus!
