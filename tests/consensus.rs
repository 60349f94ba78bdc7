use pbft_core::error::PbftError;
use pbft_core::node::{Action, Event, Node};
use pbft_core::types::{Block, Phase, ProtocolMessage, ViewChangeVote};

fn block(id: u8, signer: u64) -> Block {
    Block { block_id: vec![id], previous_block_id: vec![0], signer_id: signer, summary: vec![7, 7] }
}

fn cluster(seq: u64) -> Vec<Node> {
    (0..4u64).map(|id| Node::new(id, vec![0, 1, 2, 3], seq, 1000, 2000, 0)).collect()
}

fn pre_prepare(view: u64, seq: u64, b: Block) -> Event {
    Event::Message(ProtocolMessage::PrePrepare { view, seq, block: b })
}

fn prepare(view: u64, seq: u64, id: u8, sender: u64) -> Event {
    Event::Message(ProtocolMessage::Prepare { view, seq, block_id: vec![id], sender })
}

fn commit(view: u64, seq: u64, id: u8, sender: u64) -> Event {
    Event::Message(ProtocolMessage::Commit { view, seq, block_id: vec![id], sender })
}

fn commits_in(actions: &[Action]) -> usize {
    actions.iter().filter(|a| matches!(a, Action::CommitBlock(_))).count()
}

#[test]
fn normal_case_commits_block_once() {
    let mut nodes = cluster(1);
    for n in nodes.iter_mut() {
        let acts = n.dispatch(pre_prepare(0, 1, block(0xA, 0)), 10).unwrap();
        assert_eq!(n.state.phase, Phase::Preparing);
        assert!(matches!(&acts[0], Action::Broadcast(ProtocolMessage::Prepare { view: 0, seq: 1, block_id, .. }) if *block_id == vec![0xA]));
    }
    // the three backups' Prepare votes reach every node
    for sender in 1..4u64 {
        for n in nodes.iter_mut() {
            if n.id != sender {
                let acts = n.dispatch(prepare(0, 1, 0xA, sender), 20).unwrap();
                if n.state.phase == Phase::Committing && acts.len() == 1 {
                    assert!(matches!(&acts[0], Action::Broadcast(ProtocolMessage::Commit { view: 0, seq: 1, .. })));
                }
            }
        }
    }
    for n in nodes.iter() {
        assert_eq!(n.state.phase, Phase::Committing);
    }
    let mut committed = vec![0usize; 4];
    for sender in 1..4u64 {
        for (i, n) in nodes.iter_mut().enumerate() {
            if n.id != sender {
                let acts = n.dispatch(commit(0, 1, 0xA, sender), 30).unwrap();
                committed[i] += commits_in(&acts);
                for a in acts.iter() {
                    if let Action::CommitBlock(b) = a {
                        assert_eq!(b.block_id, vec![0xA]);
                    }
                }
            }
        }
    }
    for (i, n) in nodes.iter_mut().enumerate() {
        assert_eq!(n.state.phase, Phase::Committed);
        assert_eq!(committed[i], 1);
        n.dispatch(Event::ChainCommitted, 40).unwrap();
        assert_eq!(n.state.phase, Phase::NotStarted);
        assert_eq!(n.state.seq, 2);
        assert!(n.state.working_block.is_none());
    }
}

#[test]
fn backup_commits_after_three_distinct_prepares() {
    let mut nodes = cluster(1);
    let n = &mut nodes[1];
    n.dispatch(pre_prepare(0, 1, block(0xA, 0)), 0).unwrap();
    n.dispatch(prepare(0, 1, 0xA, 2), 0).unwrap();
    assert_eq!(n.state.phase, Phase::Preparing);
    // a repeated vote from the same sender does not count twice
    n.dispatch(prepare(0, 1, 0xA, 2), 0).unwrap();
    assert_eq!(n.state.phase, Phase::Preparing);
    let acts = n.dispatch(prepare(0, 1, 0xA, 3), 0).unwrap();
    assert_eq!(n.state.phase, Phase::Committing);
    assert!(matches!(&acts[0], Action::Broadcast(ProtocolMessage::Commit { sender: 1, .. })));
}

#[test]
fn prepares_in_any_order_reach_the_same_phase() {
    let orders: [[u64; 3]; 3] = [[0, 2, 3], [3, 0, 2], [2, 3, 0]];
    for order in orders.iter() {
        let mut nodes = cluster(1);
        let n = &mut nodes[1];
        for s in order.iter() {
            n.dispatch(prepare(0, 1, 0xA, *s), 0).unwrap();
        }
        assert_eq!(n.state.phase, Phase::NotStarted);
        n.dispatch(pre_prepare(0, 1, block(0xA, 0)), 0).unwrap();
        assert_eq!(n.state.phase, Phase::Committing);
    }
}

#[test]
fn pre_prepare_from_backup_is_rejected() {
    let mut nodes = cluster(1);
    let n = &mut nodes[2];
    let r = n.dispatch(pre_prepare(0, 1, block(0xA, 3)), 0);
    assert!(matches!(r, Err(PbftError::NotFromPrimary)));
    assert_eq!(n.state.phase, Phase::NotStarted);
    assert!(n.state.working_block.is_none());
    // the primary of view 1 is not the primary of view 0
    let r = n.dispatch(pre_prepare(0, 1, block(0xA, 1)), 0);
    assert!(matches!(r, Err(PbftError::NotFromPrimary)));
}

#[test]
fn pre_prepare_of_another_view_is_a_view_mismatch() {
    let mut nodes = cluster(1);
    let r = nodes[2].dispatch(pre_prepare(1, 1, block(0xA, 1)), 0);
    assert!(matches!(r, Err(PbftError::ViewMismatch(0, 1))));
    assert_eq!(nodes[2].state.phase, Phase::NotStarted);
}

#[test]
fn second_block_for_a_round_is_a_mismatch() {
    let mut nodes = cluster(1);
    let n = &mut nodes[1];
    n.dispatch(pre_prepare(0, 1, block(0xA, 0)), 0).unwrap();
    match n.dispatch(pre_prepare(0, 1, block(0xB, 0)), 0) {
        Err(PbftError::MismatchedBlocks(ids)) => assert_eq!(ids, vec![vec![0xA], vec![0xB]]),
        _ => panic!("expected MismatchedBlocks"),
    }
}

#[test]
fn conflicting_prepare_is_a_mismatch() {
    let mut nodes = cluster(1);
    let n = &mut nodes[1];
    n.dispatch(prepare(0, 1, 0xA, 2), 0).unwrap();
    match n.dispatch(prepare(0, 1, 0xB, 3), 0) {
        Err(PbftError::MismatchedBlocks(ids)) => assert_eq!(ids, vec![vec![0xA], vec![0xB]]),
        _ => panic!("expected MismatchedBlocks"),
    }
}

#[test]
fn vote_of_another_view_is_a_view_mismatch() {
    let mut nodes = cluster(1);
    let r = nodes[1].dispatch(commit(3, 1, 0xA, 2), 0);
    assert!(matches!(r, Err(PbftError::ViewMismatch(0, 3))));
}

#[test]
fn deadline_in_each_round_phase_starts_a_view_change() {
    for steps in 0..3 {
        let mut nodes = cluster(1);
        let n = &mut nodes[2];
        n.dispatch(pre_prepare(0, 1, block(0xA, 0)), 0).unwrap();
        if steps >= 1 {
            n.dispatch(prepare(0, 1, 0xA, 0), 0).unwrap();
            n.dispatch(prepare(0, 1, 0xA, 1), 0).unwrap();
            assert_eq!(n.state.phase, Phase::Committing);
        }
        if steps == 2 {
            assert!(n.deadline_passed(1000));
        }
        let acts = n.dispatch(Event::Timeout, 1000).unwrap();
        assert_eq!(n.state.phase, Phase::ViewChanging);
        assert_eq!(n.proposed_view, 1);
        assert!(n.state.working_block.is_none());
        assert!(matches!(&acts[0], Action::Broadcast(ProtocolMessage::ViewChange(vc)) if vc.new_view == 1 && vc.sender == 2));
        assert_eq!(n.timeouts.deadline, Some(3000));
    }
}

#[test]
fn repeated_deadline_proposes_next_view_with_longer_wait() {
    let mut nodes = cluster(1);
    let n = &mut nodes[3];
    n.dispatch(Event::Timeout, 0).unwrap();
    assert_eq!(n.timeouts.deadline, Some(2000));
    n.dispatch(Event::Timeout, 2000).unwrap();
    assert_eq!(n.proposed_view, 2);
    assert_eq!(n.timeouts.deadline, Some(6000));
    n.dispatch(Event::Timeout, 6000).unwrap();
    assert_eq!(n.proposed_view, 3);
    assert_eq!(n.timeouts.deadline, Some(14000));
    assert_eq!(n.state.view, 0);
}

#[test]
fn view_change_elects_next_primary() {
    let mut nodes = cluster(1);
    // primary 0 is silent; every backup's deadline elapses
    let mut broadcasts = Vec::new();
    for i in 1..4 {
        let acts = nodes[i].dispatch(Event::Timeout, 1000).unwrap();
        assert_eq!(nodes[i].state.phase, Phase::ViewChanging);
        for a in acts {
            if let Action::Broadcast(ProtocolMessage::ViewChange(vc)) = a {
                broadcasts.push(vc);
            }
        }
    }
    assert_eq!(broadcasts.len(), 3);
    let mut new_view = None;
    for vc in broadcasts.iter() {
        if vc.sender != 1 {
            let copy = ViewChangeVote { new_view: vc.new_view, sender: vc.sender, last_stable_seq: vc.last_stable_seq };
            let acts = nodes[1].dispatch(Event::Message(ProtocolMessage::ViewChange(copy)), 1100).unwrap();
            for a in acts {
                if let Action::Broadcast(m @ ProtocolMessage::NewView { .. }) = a {
                    new_view = Some(m);
                }
            }
        }
    }
    assert_eq!(nodes[1].state.view, 1);
    assert_eq!(nodes[1].state.phase, Phase::NotStarted);
    assert!(nodes[1].view_changes.is_empty());
    assert_eq!(nodes[1].log.len(), 0);
    let (view, sender, quorum) = match new_view {
        Some(ProtocolMessage::NewView { view, sender, quorum }) => (view, sender, quorum),
        _ => panic!("expected a NewView"),
    };
    assert_eq!((view, sender, quorum.len()), (1, 1, 3));
    for i in [2usize, 3] {
        let q: Vec<ViewChangeVote> = quorum
            .iter()
            .map(|v| ViewChangeVote { new_view: v.new_view, sender: v.sender, last_stable_seq: v.last_stable_seq })
            .collect();
        nodes[i].dispatch(Event::Message(ProtocolMessage::NewView { view, sender, quorum: q }), 1200).unwrap();
        assert_eq!(nodes[i].state.view, 1);
        assert_eq!(nodes[i].state.phase, Phase::NotStarted);
        assert_eq!(nodes[i].state.seq, 1);
    }
    // the new primary proposes, a backup follows
    let r = nodes[2].dispatch(pre_prepare(1, 1, block(0xC, 1)), 1300);
    assert!(r.is_ok());
    assert_eq!(nodes[2].state.phase, Phase::Preparing);
}

fn votes_for(view: u64, senders: &[u64]) -> Vec<ViewChangeVote> {
    senders.iter().map(|s| ViewChangeVote { new_view: view, sender: *s, last_stable_seq: 0 }).collect()
}

#[test]
fn new_view_must_come_from_its_primary() {
    let mut nodes = cluster(1);
    let r = nodes[3].dispatch(Event::Message(ProtocolMessage::NewView { view: 1, sender: 2, quorum: votes_for(1, &[1, 2, 3]) }), 0);
    assert!(matches!(r, Err(PbftError::NotFromPrimary)));
    assert_eq!(nodes[3].state.view, 0);
}

#[test]
fn new_view_not_above_current_view_is_refused() {
    let mut nodes = cluster(1);
    let r = nodes[3].dispatch(Event::Message(ProtocolMessage::NewView { view: 0, sender: 0, quorum: votes_for(0, &[0, 1, 2]) }), 0);
    assert!(matches!(r, Err(PbftError::ViewMismatch(0, 0))));
    assert_eq!(nodes[3].state.view, 0);
}

#[test]
fn new_view_needs_quorum_of_distinct_senders() {
    let mut nodes = cluster(1);
    let r = nodes[3].dispatch(Event::Message(ProtocolMessage::NewView { view: 1, sender: 1, quorum: votes_for(1, &[1, 2, 2]) }), 0);
    assert!(matches!(r, Err(PbftError::InternalError(_))));
    let r = nodes[3].dispatch(Event::Message(ProtocolMessage::NewView { view: 1, sender: 1, quorum: votes_for(2, &[1, 2, 3]) }), 0);
    assert!(matches!(r, Err(PbftError::ViewMismatch(1, 2))));
    assert_eq!(nodes[3].state.view, 0);
    nodes[3].dispatch(Event::Message(ProtocolMessage::NewView { view: 5, sender: 1, quorum: votes_for(5, &[0, 1, 2]) }), 0).unwrap();
    assert_eq!(nodes[3].state.view, 5);
}

#[test]
fn stale_view_change_is_a_view_mismatch() {
    let mut nodes = cluster(1);
    let r = nodes[0].dispatch(Event::Message(ProtocolMessage::ViewChange(ViewChangeVote { new_view: 0, sender: 1, last_stable_seq: 0 })), 0);
    assert!(matches!(r, Err(PbftError::ViewMismatch(0, 0))));
}

#[test]
fn chain_ack_without_working_block_is_refused() {
    let mut nodes = cluster(1);
    let r = nodes[0].dispatch(Event::ChainCommitted, 0);
    assert!(matches!(r, Err(PbftError::NoWorkingBlock)));
    assert!(matches!(nodes[0].working_block_id(), Err(PbftError::NoWorkingBlock)));
    nodes[0].dispatch(pre_prepare(0, 1, block(0xA, 0)), 0).unwrap();
    assert_eq!(nodes[0].working_block_id().unwrap(), vec![0xA]);
    let r = nodes[0].dispatch(Event::ChainCommitted, 0);
    assert!(matches!(r, Err(PbftError::InternalError(_))));
    assert_eq!(nodes[0].state.phase, Phase::Preparing);
}

#[test]
fn stable_checkpoint_discards_older_votes() {
    let mut nodes = cluster(5);
    let n = &mut nodes[1];
    n.dispatch(prepare(0, 2, 0xA, 2), 0).unwrap();
    n.dispatch(prepare(0, 5, 0xB, 2), 0).unwrap();
    for s in 0..3u64 {
        n.dispatch(Event::Message(ProtocolMessage::Checkpoint { seq: 4, state_digest: vec![9], sender: s }), 0).unwrap();
    }
    // the vote for sequence 2 is gone; sequence 5 and the checkpoint votes stay
    assert_eq!(n.log.len(), 4);
    assert!(n.log.votes.iter().all(|v| v.seq >= 4));
}

#[test]
fn timeout_while_committed_changes_nothing() {
    let mut nodes = cluster(1);
    let n = &mut nodes[0];
    n.dispatch(pre_prepare(0, 1, block(0xA, 0)), 0).unwrap();
    for s in 1..4u64 {
        n.dispatch(prepare(0, 1, 0xA, s), 0).unwrap();
    }
    for s in 1..3u64 {
        n.dispatch(commit(0, 1, 0xA, s), 0).unwrap();
    }
    assert_eq!(n.state.phase, Phase::Committed);
    let acts = n.dispatch(Event::Timeout, 5000).unwrap();
    assert!(acts.is_empty());
    assert_eq!(n.state.phase, Phase::Committed);
}

fn view_change(new_view: u64, sender: u64) -> Event {
    Event::Message(ProtocolMessage::ViewChange(ViewChangeVote { new_view, sender, last_stable_seq: 0 }))
}

#[test]
fn backup_joins_after_weak_quorum_of_requests() {
    let mut nodes = cluster(1);
    let n = &mut nodes[2];
    let acts = n.dispatch(view_change(1, 0), 0).unwrap();
    assert!(acts.is_empty());
    assert_eq!(n.state.phase, Phase::NotStarted);
    let acts = n.dispatch(view_change(1, 3), 0).unwrap();
    assert_eq!(n.state.phase, Phase::ViewChanging);
    assert_eq!(n.proposed_view, 1);
    assert_eq!(acts.len(), 1);
    assert!(matches!(&acts[0], Action::Broadcast(ProtocolMessage::ViewChange(vc)) if vc.new_view == 1 && vc.sender == 2));
}

#[test]
fn next_primary_joins_and_announces_new_view() {
    let mut nodes = cluster(1);
    let n = &mut nodes[1];
    n.dispatch(view_change(1, 0), 0).unwrap();
    let acts = n.dispatch(view_change(1, 3), 0).unwrap();
    assert_eq!(acts.len(), 2);
    assert!(matches!(&acts[0], Action::Broadcast(ProtocolMessage::ViewChange(_))));
    match &acts[1] {
        Action::Broadcast(ProtocolMessage::NewView { view, sender, quorum }) => {
            assert_eq!((*view, *sender, quorum.len()), (1, 1, 3));
        }
        _ => panic!("expected a NewView"),
    }
    assert_eq!(n.state.view, 1);
    assert_eq!(n.state.phase, Phase::NotStarted);
}

#[test]
fn committed_node_defers_new_view() {
    let mut nodes = cluster(1);
    let n = &mut nodes[0];
    n.dispatch(pre_prepare(0, 1, block(0xA, 0)), 0).unwrap();
    n.dispatch(prepare(0, 1, 0xA, 1), 0).unwrap();
    n.dispatch(prepare(0, 1, 0xA, 2), 0).unwrap();
    n.dispatch(commit(0, 1, 0xA, 1), 0).unwrap();
    let acts = n.dispatch(commit(0, 1, 0xA, 2), 0).unwrap();
    assert_eq!(commits_in(&acts), 1);
    assert!(matches!(acts.last(), Some(Action::CommitBlock(b)) if b.block_id == vec![0xA]));
    let q = vec![
        ViewChangeVote { new_view: 1, sender: 1, last_stable_seq: 0 },
        ViewChangeVote { new_view: 1, sender: 2, last_stable_seq: 0 },
        ViewChangeVote { new_view: 1, sender: 3, last_stable_seq: 0 },
    ];
    let r = n.dispatch(Event::Message(ProtocolMessage::NewView { view: 1, sender: 1, quorum: q }), 0);
    assert!(matches!(r, Err(PbftError::ViewMismatch(0, 1))));
    assert_eq!(n.state.phase, Phase::Committed);
    let acts = n.dispatch(commit(0, 1, 0xA, 3), 0).unwrap();
    assert_eq!(commits_in(&acts), 0);
}

#[test]
fn mismatch_in_round_starts_view_change() {
    let mut nodes = cluster(1);
    let n = &mut nodes[1];
    n.dispatch(pre_prepare(0, 1, block(0xA, 0)), 0).unwrap();
    let e = n.dispatch(prepare(0, 1, 0xB, 2), 0).unwrap_err();
    assert!(matches!(e, PbftError::MismatchedBlocks(_)));
    let acts = n.recover(&e, 50);
    assert_eq!(n.state.phase, Phase::ViewChanging);
    assert_eq!(n.proposed_view, 1);
    assert!(matches!(&acts[0], Action::Broadcast(ProtocolMessage::ViewChange(vc)) if vc.new_view == 1));
    // other errors change nothing
    let acts = n.recover(&PbftError::NotFromPrimary, 60);
    assert!(acts.is_empty());
    assert_eq!(n.proposed_view, 1);
}

#[test]
fn new_node_arms_round_deadline() {
    let n = Node::new(2, vec![0, 1, 2, 3], 1, 1000, 2000, 25);
    assert_eq!(n.timeouts.deadline, Some(1025));
    assert!(!n.deadline_passed(1024));
    assert!(n.deadline_passed(1025));
}

#[test]
fn timeout_in_view_changing_requests_next_view() {
    let mut nodes = cluster(1);
    let n = &mut nodes[2];
    n.dispatch(Event::Timeout, 0).unwrap();
    let acts = n.dispatch(Event::Timeout, 2000).unwrap();
    assert_eq!(n.state.view, 0);
    assert_eq!(n.state.phase, Phase::ViewChanging);
    assert!(matches!(&acts[0], Action::Broadcast(ProtocolMessage::ViewChange(vc)) if vc.new_view == 2 && vc.sender == 2));
}
