//! The message log: votes per (view, sequence, kind), duplicate and mismatch
//! detection, and distinct-sender quorum counting.

use vstd::prelude::*;
use crate::error::PbftError;
use crate::types::{copy_bytes, same_bytes, NodeId, Vote, VoteKind};

verus! {

/// The vote is filed under the given (view, sequence, kind).
pub open spec fn in_slot(v: Vote, view: u64, seq: u64, kind: VoteKind) -> bool {
    v.view == view && v.seq == seq && v.kind == kind
}

/// The vote is filed under the given slot and names the given block id.
pub open spec fn counts_for(v: Vote, view: u64, seq: u64, kind: VoteKind, id: Seq<u8>) -> bool {
    in_slot(v, view, seq, kind) && v.block_id@ == id
}

/// The distinct senders of the votes that count for (view, seq, kind, id).
pub open spec fn voters(votes: Seq<Vote>, view: u64, seq: u64, kind: VoteKind, id: Seq<u8>) -> Set<NodeId>
    decreases votes.len(),
{
    if votes.len() == 0 {
        Set::empty()
    } else {
        let rest = voters(votes.drop_last(), view, seq, kind, id);
        if counts_for(votes.last(), view, seq, kind, id) {
            rest.insert(votes.last().sender)
        } else {
            rest
        }
    }
}

/// Within a slot, no sender appears twice and all votes name one block id.
pub open spec fn votes_wf(votes: Seq<Vote>) -> bool {
    forall|i: int, j: int|
        #![trigger votes[i], votes[j]]
        0 <= i < votes.len() && 0 <= j < votes.len() && i != j
            && in_slot(votes[j], votes[i].view, votes[i].seq, votes[i].kind)
            ==> votes[i].sender != votes[j].sender && votes[i].block_id@ == votes[j].block_id@
}

/// Some vote in the slot comes from the given sender.
pub open spec fn has_voted(votes: Seq<Vote>, view: u64, seq: u64, kind: VoteKind, sender: NodeId) -> bool {
    exists|j: int| 0 <= j < votes.len() && #[trigger] in_slot(votes[j], view, seq, kind) && votes[j].sender == sender
}

/// Some vote in the slot names a block id other than the given one.
pub open spec fn conflicts(votes: Seq<Vote>, view: u64, seq: u64, kind: VoteKind, id: Seq<u8>) -> bool {
    exists|j: int| 0 <= j < votes.len() && #[trigger] in_slot(votes[j], view, seq, kind) && votes[j].block_id@ != id
}

pub proof fn lemma_voters_finite(votes: Seq<Vote>, view: u64, seq: u64, kind: VoteKind, id: Seq<u8>)
    ensures
        voters(votes, view, seq, kind, id).finite(),
    decreases votes.len(),
{
    if votes.len() > 0 {
        lemma_voters_finite(votes.drop_last(), view, seq, kind, id);
    }
}

/// A sender is among the voters exactly when one of its votes counts.
pub proof fn lemma_voters_contains(votes: Seq<Vote>, view: u64, seq: u64, kind: VoteKind, id: Seq<u8>, s: NodeId)
    ensures
        voters(votes, view, seq, kind, id).contains(s) <==> exists|j: int|
            0 <= j < votes.len() && #[trigger] counts_for(votes[j], view, seq, kind, id) && votes[j].sender == s,
    decreases votes.len(),
{
    if votes.len() > 0 {
        let rest = votes.drop_last();
        lemma_voters_contains(rest, view, seq, kind, id, s);
        if voters(votes, view, seq, kind, id).contains(s) {
            if rest.len() < votes.len() && voters(rest, view, seq, kind, id).contains(s) {
                let j = choose|j: int| 0 <= j < rest.len() && #[trigger] counts_for(rest[j], view, seq, kind, id) && rest[j].sender == s;
                assert(votes[j] == rest[j]);
            } else {
                assert(counts_for(votes[votes.len() - 1], view, seq, kind, id));
            }
        }
        if exists|j: int| 0 <= j < votes.len() && #[trigger] counts_for(votes[j], view, seq, kind, id) && votes[j].sender == s {
            let j = choose|j: int| 0 <= j < votes.len() && #[trigger] counts_for(votes[j], view, seq, kind, id) && votes[j].sender == s;
            if j < rest.len() {
                assert(rest[j] == votes[j]);
            }
        }
    }
}

/// Quorum counting does not depend on arrival order: two logs that hold the
/// same votes, in any order, have the same voters for every slot and block id.
pub proof fn lemma_voters_order_independent(
    a: Seq<Vote>,
    b: Seq<Vote>,
    view: u64,
    seq: u64,
    kind: VoteKind,
    id: Seq<u8>,
)
    requires
        a.to_multiset() == b.to_multiset(),
    ensures
        voters(a, view, seq, kind, id) == voters(b, view, seq, kind, id),
        voters(a, view, seq, kind, id).len() == voters(b, view, seq, kind, id).len(),
{
    broadcast use vstd::seq_lib::group_to_multiset_ensures;
    assert forall|s: NodeId| voters(a, view, seq, kind, id).contains(s) implies voters(b, view, seq, kind, id).contains(s) by {
        lemma_voters_contains(a, view, seq, kind, id, s);
        lemma_voters_contains(b, view, seq, kind, id, s);
        let j = choose|j: int| 0 <= j < a.len() && #[trigger] counts_for(a[j], view, seq, kind, id) && a[j].sender == s;
        assert(a.contains(a[j]));
        assert(a.to_multiset().count(a[j]) > 0);
        assert(b.to_multiset().count(a[j]) > 0);
        assert(b.contains(a[j]));
        let k = choose|k: int| 0 <= k < b.len() && b[k] == a[j];
        assert(counts_for(b[k], view, seq, kind, id));
    }
    assert forall|s: NodeId| voters(b, view, seq, kind, id).contains(s) implies voters(a, view, seq, kind, id).contains(s) by {
        lemma_voters_contains(a, view, seq, kind, id, s);
        lemma_voters_contains(b, view, seq, kind, id, s);
        let j = choose|j: int| 0 <= j < b.len() && #[trigger] counts_for(b[j], view, seq, kind, id) && b[j].sender == s;
        assert(b.contains(b[j]));
        assert(b.to_multiset().count(b[j]) > 0);
        assert(a.to_multiset().count(b[j]) > 0);
        assert(a.contains(b[j]));
        let k = choose|k: int| 0 <= k < a.len() && a[k] == b[j];
        assert(counts_for(a[k], view, seq, kind, id));
    }
    assert(voters(a, view, seq, kind, id) =~= voters(b, view, seq, kind, id));
}

/// Once a vote is recorded, a vote of the same kind for the same view and
/// sequence number from another sender that names a different block id is in
/// conflict with the log. Unless its sender has voted in that slot already,
/// `MessageLog::record` therefore refuses it with `MismatchedBlocks` instead
/// of picking either block.
pub proof fn lemma_differing_votes_conflict(votes: Seq<Vote>, a: Vote, b: Vote)
    requires
        in_slot(a, b.view, b.seq, b.kind),
        a.sender != b.sender,
        a.block_id@ != b.block_id@,
    ensures
        conflicts(votes.push(a), b.view, b.seq, b.kind, b.block_id@),
{
    assert(votes.push(a)[votes.len() as int] == a);
}

/// The log after `MessageLog::record` accepts a vote: unchanged for a
/// repeat, the vote appended otherwise.
pub open spec fn after_record(votes: Seq<Vote>, v: Vote) -> Seq<Vote> {
    if has_voted(votes, v.view, v.seq, v.kind, v.sender) { votes } else { votes.push(v) }
}

/// `b` holds the votes of `a`, in order, then possibly more.
pub open spec fn extends(a: Seq<Vote>, b: Seq<Vote>) -> bool {
    &&& a.len() <= b.len()
    &&& forall|i: int| 0 <= i < a.len() ==> #[trigger] b[i] == a[i]
}

/// Where a vote of a slot names another id, no vote of that slot counts for `id`.
pub proof fn lemma_conflict_no_voters(votes: Seq<Vote>, view: u64, seq: u64, kind: VoteKind, id: Seq<u8>)
    requires
        votes_wf(votes),
        conflicts(votes, view, seq, kind, id),
    ensures
        voters(votes, view, seq, kind, id) == Set::<NodeId>::empty(),
{
    let j = choose|j: int| 0 <= j < votes.len() && #[trigger] in_slot(votes[j], view, seq, kind) && votes[j].block_id@ != id;
    assert forall|s: NodeId| !voters(votes, view, seq, kind, id).contains(s) by {
        lemma_voters_contains(votes, view, seq, kind, id, s);
        if voters(votes, view, seq, kind, id).contains(s) {
            let k = choose|k: int| 0 <= k < votes.len() && #[trigger] counts_for(votes[k], view, seq, kind, id) && votes[k].sender == s;
            assert(in_slot(votes[j], votes[k].view, votes[k].seq, votes[k].kind));
            assert(votes[k].block_id@ == votes[j].block_id@);
        }
    }
    assert(voters(votes, view, seq, kind, id) =~= Set::<NodeId>::empty());
}

/// Every view-change vote names the empty block id.
pub open spec fn view_change_ids_empty(votes: Seq<Vote>) -> bool {
    forall|i: int| 0 <= i < votes.len() && (#[trigger] votes[i]).kind == VoteKind::ViewChange ==> votes[i].block_id@ == Seq::<u8>::empty()
}

pub proof fn lemma_filter_view_change_ids_empty(votes: Seq<Vote>, keep: spec_fn(Vote) -> bool)
    requires
        view_change_ids_empty(votes),
    ensures
        view_change_ids_empty(votes.filter(keep)),
{
    let f = votes.filter(keep);
    assert forall|i: int| 0 <= i < f.len() && (#[trigger] f[i]).kind == VoteKind::ViewChange implies f[i].block_id@ == Seq::<u8>::empty() by {
        assert(f.contains(f[i]));
        votes.lemma_filter_contains_rev(keep, f[i]);
        let k = choose|k: int| 0 <= k < votes.len() && votes[k] == f[i];
        assert(votes[k].kind == VoteKind::ViewChange);
    }
}

/// Appending a vote never removes a voter.
pub proof fn lemma_voters_push(votes: Seq<Vote>, x: Vote, view: u64, seq: u64, kind: VoteKind, id: Seq<u8>)
    ensures
        voters(votes, view, seq, kind, id).subset_of(voters(votes.push(x), view, seq, kind, id)),
        voters(votes, view, seq, kind, id).len() <= voters(votes.push(x), view, seq, kind, id).len(),
        !counts_for(x, view, seq, kind, id) ==> voters(votes.push(x), view, seq, kind, id) == voters(votes, view, seq, kind, id),
{
    assert(votes.push(x).drop_last() =~= votes);
    lemma_voters_finite(votes.push(x), view, seq, kind, id);
    vstd::set_lib::lemma_len_subset(voters(votes, view, seq, kind, id), voters(votes.push(x), view, seq, kind, id));
}

/// Dropping only votes that do not count for a block id keeps its voters.
pub proof fn lemma_voters_filter(votes: Seq<Vote>, keep: spec_fn(Vote) -> bool, view: u64, seq: u64, kind: VoteKind, id: Seq<u8>)
    requires
        forall|v: Vote| counts_for(v, view, seq, kind, id) ==> #[trigger] keep(v),
    ensures
        voters(votes.filter(keep), view, seq, kind, id) == voters(votes, view, seq, kind, id),
    decreases votes.len(),
{
    reveal(Seq::filter);
    if votes.len() > 0 {
        let rest = votes.drop_last();
        lemma_voters_filter(rest, keep, view, seq, kind, id);
        let f = rest.filter(keep);
        assert(votes.filter(keep) == if keep(votes.last()) { f.push(votes.last()) } else { f });
        if keep(votes.last()) {
            assert(f.push(votes.last()).drop_last() =~= f);
        }
    }
}

/// Dropping votes keeps the log well formed.
pub proof fn lemma_filter_wf(votes: Seq<Vote>, keep: spec_fn(Vote) -> bool)
    requires
        votes_wf(votes),
    ensures
        votes_wf(votes.filter(keep)),
    decreases votes.len(),
{
    reveal(Seq::filter);
    if votes.len() > 0 {
        let rest = votes.drop_last();
        let last = votes.last();
        assert(votes_wf(rest)) by {
            assert forall|i: int, j: int|
                0 <= i < rest.len() && 0 <= j < rest.len() && i != j
                    && in_slot(#[trigger] rest[j], rest[i].view, rest[i].seq, rest[i].kind)
                implies rest[i].sender != rest[j].sender && #[trigger] rest[i].block_id@ == rest[j].block_id@ by {
                assert(rest[i] == votes[i] && rest[j] == votes[j]);
            }
        }
        lemma_filter_wf(rest, keep);
        let f = rest.filter(keep);
        assert(votes.filter(keep) == if keep(last) { f.push(last) } else { f });
        if keep(last) {
            let g = f.push(last);
            assert forall|i: int, j: int|
                #![trigger g[i], g[j]]
                0 <= i < g.len() && 0 <= j < g.len() && i != j
                    && in_slot(g[j], g[i].view, g[i].seq, g[i].kind)
                implies g[i].sender != g[j].sender && g[i].block_id@ == g[j].block_id@ by {
                let n = votes.len() - 1;
                if i == f.len() {
                    assert(f.contains(g[j]));
                    rest.lemma_filter_contains_rev(keep, g[j]);
                    let k = choose|k: int| 0 <= k < rest.len() && rest[k] == g[j];
                    assert(votes[k] == g[j] && votes[n] == g[i]);
                    assert(in_slot(votes[k], votes[n].view, votes[n].seq, votes[n].kind));
                } else if j == f.len() {
                    assert(f.contains(g[i]));
                    rest.lemma_filter_contains_rev(keep, g[i]);
                    let k = choose|k: int| 0 <= k < rest.len() && rest[k] == g[i];
                    assert(votes[k] == g[i] && votes[n] == g[j]);
                    assert(in_slot(votes[n], votes[k].view, votes[k].seq, votes[k].kind));
                } else {
                    assert(g[i] == f[i] && g[j] == f[j]);
                }
            }
            assert(votes_wf(g));
        }
    }
}

/// Keeps the votes of every round but (view, seq).
pub open spec fn outside_round(view: u64, seq: u64) -> spec_fn(Vote) -> bool {
    |v: Vote| !(v.view == view && v.seq == seq)
}

/// Keeps view-change votes and votes for sequence numbers at or above `low`.
pub open spec fn at_or_above(low: u64) -> spec_fn(Vote) -> bool {
    |v: Vote| v.kind == VoteKind::ViewChange || v.seq >= low
}

/// Which votes a purge keeps.
enum PurgeRule {
    OutsideRound(u64, u64),
    AtOrAbove(u64),
    NotSuperseded(u64),
}

spec fn rule_keeps(rule: PurgeRule) -> spec_fn(Vote) -> bool {
    match rule {
        PurgeRule::OutsideRound(view, seq) => outside_round(view, seq),
        PurgeRule::AtOrAbove(low) => at_or_above(low),
        PurgeRule::NotSuperseded(view) => not_superseded(view),
    }
}

fn keeps(rule: &PurgeRule, v: &Vote) -> (r: bool)
    ensures
        r == rule_keeps(*rule)(*v),
{
    match rule {
        PurgeRule::OutsideRound(view, seq) => !(v.view == *view && v.seq == *seq),
        PurgeRule::AtOrAbove(low) => v.kind == VoteKind::ViewChange || v.seq >= *low,
        PurgeRule::NotSuperseded(view) => !(v.kind == VoteKind::ViewChange && v.view <= *view),
    }
}

/// Keeps every vote but view-change votes for views up to `view`.
pub open spec fn not_superseded(view: u64) -> spec_fn(Vote) -> bool {
    |v: Vote| !(v.kind == VoteKind::ViewChange && v.view <= view)
}

/// The votes a node has received, filed by (view, sequence, kind).
pub struct MessageLog {
    pub votes: Vec<Vote>,
}

impl MessageLog {
    pub open spec fn wf(&self) -> bool {
        votes_wf(self.votes@)
    }

    pub fn new() -> (r: MessageLog)
        ensures
            r.wf(),
            r.votes@.len() == 0,
    {
        MessageLog { votes: Vec::new() }
    }

    pub fn len(&self) -> (r: usize)
        ensures
            r == self.votes@.len(),
    {
        self.votes.len()
    }

    fn retain(&mut self, rule: PurgeRule)
        requires
            old(self).wf(),
        ensures
            final(self).wf(),
            final(self).votes@ == old(self).votes@.filter(rule_keeps(rule)),
    {
        let ghost orig = self.votes@;
        let mut source: Vec<Vote> = Vec::new();
        std::mem::swap(&mut source, &mut self.votes);
        let mut kept: Vec<Vote> = Vec::new();
        let ghost mut i: int = 0;
        while source.len() > 0
            invariant
                0 <= i <= orig.len(),
                source@ == orig.subrange(i, orig.len() as int),
                kept@ == orig.take(i).filter(rule_keeps(rule)),
            decreases source@.len(),
        {
            let v = source.remove(0);
            proof {
                assert(orig.take(i + 1) =~= orig.take(i).push(v));
                orig.take(i).lemma_filter_push(v, rule_keeps(rule));
                i = i + 1;
                assert(source@ =~= orig.subrange(i, orig.len() as int));
            }
            if keeps(&rule, &v) {
                kept.push(v);
            }
        }
        proof {
            assert(orig.take(i) =~= orig);
            lemma_filter_wf(orig, rule_keeps(rule));
        }
        self.votes = kept;
    }

    /// Discards every vote of the round (view, seq).
    pub fn purge(&mut self, view: u64, seq: u64)
        requires
            old(self).wf(),
        ensures
            final(self).wf(),
            final(self).votes@ == old(self).votes@.filter(outside_round(view, seq)),
    {
        self.retain(PurgeRule::OutsideRound(view, seq));
    }

    /// Discards every prepare, commit and checkpoint vote for a sequence
    /// number below `low`; view-change votes stay.
    pub fn purge_before(&mut self, low: u64)
        requires
            old(self).wf(),
        ensures
            final(self).wf(),
            final(self).votes@ == old(self).votes@.filter(at_or_above(low)),
    {
        self.retain(PurgeRule::AtOrAbove(low));
    }

    /// Discards the view-change votes for views up to `view`, once a later
    /// or equal view is adopted.
    pub fn purge_view_changes(&mut self, view: u64)
        requires
            old(self).wf(),
        ensures
            final(self).wf(),
            final(self).votes@ == old(self).votes@.filter(not_superseded(view)),
    {
        self.retain(PurgeRule::NotSuperseded(view));
    }

    /// The number of distinct senders whose votes for (view, seq, kind) name `id`.
    pub fn quorum_for(&self, view: u64, seq: u64, kind: VoteKind, id: &Vec<u8>) -> (r: usize)
        requires
            self.wf(),
        ensures
            r as nat == voters(self.votes@, view, seq, kind, id@).len(),
    {
        let ghost votes = self.votes@;
        let mut count: usize = 0;
        let mut i: usize = 0;
        while i < self.votes.len()
            invariant
                i <= votes.len(),
                votes == self.votes@,
                votes_wf(votes),
                count <= i,
                count as nat == voters(votes.take(i as int), view, seq, kind, id@).len(),
            decreases votes.len() - i,
        {
            proof {
                lemma_voters_finite(votes.take(i as int), view, seq, kind, id@);
                assert(votes.take(i + 1).drop_last() =~= votes.take(i as int));
                assert(votes.take(i + 1).last() == votes[i as int]);
            }
            let v = &self.votes[i];
            if v.view == view && v.seq == seq && v.kind == kind && same_bytes(&v.block_id, id) {
                proof {
                    let pre = votes.take(i as int);
                    lemma_voters_contains(pre, view, seq, kind, id@, v.sender);
                    if voters(pre, view, seq, kind, id@).contains(v.sender) {
                        let j = choose|j: int| 0 <= j < pre.len() && #[trigger] counts_for(pre[j], view, seq, kind, id@) && pre[j].sender == v.sender;
                        assert(pre[j] == votes[j]);
                        assert(in_slot(votes[j], votes[i as int].view, votes[i as int].seq, votes[i as int].kind));
                    }
                }
                count = count + 1;
            }
            i = i + 1;
        }
        assert(votes.take(votes.len() as int) =~= votes);
        count
    }

    /// Records a vote. A second vote from the same sender for the same slot is
    /// a no-op. A vote whose block id differs from the ids already recorded for
    /// its slot is refused with `MismatchedBlocks`, carrying the recorded id
    /// and the new one. Otherwise the vote is appended. On success the result
    /// is the number of distinct senders whose votes for the slot name the
    /// vote's block id.
    pub fn record(&mut self, vote: Vote) -> (r: Result<usize, PbftError>)
        requires
            old(self).wf(),
        ensures
            final(self).wf(),
            has_voted(old(self).votes@, vote.view, vote.seq, vote.kind, vote.sender) ==> {
                &&& r is Ok
                &&& final(self).votes@ == old(self).votes@
            },
            !has_voted(old(self).votes@, vote.view, vote.seq, vote.kind, vote.sender)
                && conflicts(old(self).votes@, vote.view, vote.seq, vote.kind, vote.block_id@) ==> {
                &&& final(self).votes@ == old(self).votes@
                &&& r matches Err(PbftError::MismatchedBlocks(ids))
                &&& ids@.len() == 2
                &&& ids@[1]@ == vote.block_id@
                &&& forall|j: int| 0 <= j < old(self).votes@.len()
                    && #[trigger] in_slot(old(self).votes@[j], vote.view, vote.seq, vote.kind)
                    ==> ids@[0]@ == old(self).votes@[j].block_id@
            },
            !has_voted(old(self).votes@, vote.view, vote.seq, vote.kind, vote.sender)
                && !conflicts(old(self).votes@, vote.view, vote.seq, vote.kind, vote.block_id@) ==> {
                &&& r is Ok
                &&& final(self).votes@ == old(self).votes@.push(vote)
            },
            r matches Ok(c) ==> c as nat == voters(final(self).votes@, vote.view, vote.seq, vote.kind, vote.block_id@).len(),
            r is Ok ==> final(self).votes@ == after_record(old(self).votes@, vote),
    {
        let ghost votes = self.votes@;
        let mut dup = false;
        let mut conflict: Option<usize> = None;
        let mut i: usize = 0;
        while i < self.votes.len()
            invariant
                i <= votes.len(),
                votes == self.votes@,
                dup <==> exists|j: int| 0 <= j < i && #[trigger] in_slot(votes[j], vote.view, vote.seq, vote.kind) && votes[j].sender == vote.sender,
                conflict matches Some(k) ==> k < i && in_slot(votes[k as int], vote.view, vote.seq, vote.kind) && votes[k as int].block_id@ != vote.block_id@,
                conflict is None ==> forall|j: int| 0 <= j < i && #[trigger] in_slot(votes[j], vote.view, vote.seq, vote.kind) ==> votes[j].block_id@ == vote.block_id@,
            decreases votes.len() - i,
        {
            let v = &self.votes[i];
            if v.view == vote.view && v.seq == vote.seq && v.kind == vote.kind {
                if v.sender == vote.sender {
                    dup = true;
                }
                if conflict.is_none() && !same_bytes(&v.block_id, &vote.block_id) {
                    conflict = Some(i);
                }
            }
            assert(in_slot(votes[i as int], vote.view, vote.seq, vote.kind) ==> (dup <==> exists|j: int| 0 <= j < i + 1 && #[trigger] in_slot(votes[j], vote.view, vote.seq, vote.kind) && votes[j].sender == vote.sender));
            i = i + 1;
        }
        let view = vote.view;
        let seq = vote.seq;
        let kind = vote.kind;
        let id = copy_bytes(&vote.block_id);
        if !dup {
            if let Some(k) = conflict {
                let recorded = copy_bytes(&self.votes[k].block_id);
                let fresh = copy_bytes(&vote.block_id);
                let mut ids: Vec<Vec<u8>> = Vec::new();
                ids.push(recorded);
                ids.push(fresh);
                return Err(PbftError::MismatchedBlocks(ids));
            }
            let ghost pushed = votes.push(vote);
            self.votes.push(vote);
            proof {
                assert forall|i: int, j: int|
                    0 <= i < pushed.len() && 0 <= j < pushed.len() && i != j
                        && in_slot(#[trigger] pushed[j], pushed[i].view, pushed[i].seq, pushed[i].kind)
                    implies pushed[i].sender != pushed[j].sender && #[trigger] pushed[i].block_id@ == pushed[j].block_id@ by {
                    let n = votes.len() as int;
                    if i == n {
                        assert(pushed[j] == votes[j]);
                        assert(in_slot(votes[j], vote.view, vote.seq, vote.kind));
                    } else if j == n {
                        assert(pushed[i] == votes[i]);
                        assert(in_slot(votes[i], vote.view, vote.seq, vote.kind));
                    } else {
                        assert(pushed[i] == votes[i] && pushed[j] == votes[j]);
                    }
                }
            }
        }
        let count = self.quorum_for(view, seq, kind, &id);
        Ok(count)
    }
}

} // verus!
