use pbft_core::error::{block_ids_text, PbftError};
use pbft_core::log::MessageLog;
use pbft_core::state::{ProtocolState, Trigger};
use pbft_core::timeout::TimeoutManager;
use pbft_core::types::{
    copy_bytes, fault_bound, quorum_size, same_bytes, weak_quorum_size, Block, Phase, Vote, VoteKind,
};
use protobuf::error::ProtobufError;

fn vote(view: u64, seq: u64, kind: VoteKind, sender: u64, id: u8) -> Vote {
    Vote { view, seq, kind, sender, block_id: vec![id] }
}

#[test]
fn quorum_arithmetic() {
    assert_eq!((fault_bound(4), quorum_size(4), weak_quorum_size(4)), (1, 3, 2));
    assert_eq!((fault_bound(7), quorum_size(7), weak_quorum_size(7)), (2, 5, 3));
    assert_eq!((fault_bound(1), quorum_size(1), weak_quorum_size(1)), (0, 1, 1));
}

#[test]
fn log_counts_distinct_senders() {
    let mut log = MessageLog::new();
    assert_eq!(log.record(vote(0, 1, VoteKind::Prepare, 1, 0xA)).unwrap(), 1);
    assert_eq!(log.record(vote(0, 1, VoteKind::Prepare, 1, 0xA)).unwrap(), 1);
    // the same sender naming another block is a repeat, not a conflict
    assert_eq!(log.record(vote(0, 1, VoteKind::Prepare, 1, 0xB)).unwrap(), 0);
    assert_eq!(log.record(vote(0, 1, VoteKind::Prepare, 2, 0xA)).unwrap(), 2);
    assert_eq!(log.record(vote(0, 1, VoteKind::Commit, 3, 0xA)).unwrap(), 1);
    assert_eq!(log.len(), 3);
    assert_eq!(log.quorum_for(0, 1, VoteKind::Prepare, &vec![0xA]), 2);
    assert_eq!(log.quorum_for(0, 1, VoteKind::Prepare, &vec![0xB]), 0);
    assert_eq!(log.quorum_for(1, 1, VoteKind::Prepare, &vec![0xA]), 0);
}

#[test]
fn log_reports_conflicting_senders() {
    let mut log = MessageLog::new();
    log.record(vote(2, 7, VoteKind::Commit, 1, 0xA)).unwrap();
    match log.record(vote(2, 7, VoteKind::Commit, 2, 0xB)) {
        Err(PbftError::MismatchedBlocks(ids)) => assert_eq!(ids, vec![vec![0xA], vec![0xB]]),
        _ => panic!("expected MismatchedBlocks"),
    }
    assert_eq!(log.len(), 1);
    // another kind or round is no conflict
    assert!(log.record(vote(2, 7, VoteKind::Prepare, 2, 0xB)).is_ok());
    assert!(log.record(vote(2, 8, VoteKind::Commit, 2, 0xB)).is_ok());
}

#[test]
fn log_count_ignores_arrival_order() {
    let votes = [(1u64, 0xAu8), (2, 0xA), (3, 0xA), (2, 0xA)];
    let orders: [[usize; 4]; 3] = [[0, 1, 2, 3], [3, 2, 1, 0], [2, 0, 3, 1]];
    for order in orders.iter() {
        let mut log = MessageLog::new();
        for i in order.iter() {
            let (s, id) = votes[*i];
            log.record(vote(0, 1, VoteKind::Prepare, s, id)).unwrap();
        }
        assert_eq!(log.quorum_for(0, 1, VoteKind::Prepare, &vec![0xA]), 3);
    }
}

#[test]
fn log_purges() {
    let mut log = MessageLog::new();
    log.record(vote(0, 1, VoteKind::Prepare, 1, 0xA)).unwrap();
    log.record(vote(0, 1, VoteKind::Commit, 1, 0xA)).unwrap();
    log.record(vote(0, 2, VoteKind::Prepare, 1, 0xB)).unwrap();
    log.record(vote(1, 1, VoteKind::Prepare, 1, 0xC)).unwrap();
    log.record(Vote { view: 3, seq: 0, kind: VoteKind::ViewChange, sender: 2, block_id: vec![] }).unwrap();
    log.purge(0, 1);
    assert_eq!(log.len(), 3);
    assert_eq!(log.quorum_for(0, 2, VoteKind::Prepare, &vec![0xB]), 1);
    log.purge_before(2);
    assert_eq!(log.len(), 2);
    assert_eq!(log.quorum_for(3, 0, VoteKind::ViewChange, &vec![]), 1);
    assert_eq!(log.quorum_for(0, 2, VoteKind::Prepare, &vec![0xB]), 1);
}

fn block(id: u8) -> Block {
    Block { block_id: vec![id], previous_block_id: vec![], signer_id: 0, summary: vec![] }
}

#[test]
fn state_follows_transition_table() {
    let mut st = ProtocolState::new(vec![10, 11, 12, 13], 1);
    assert_eq!(st.primary(0), 10);
    assert_eq!(st.primary(6), 12);
    assert!(st.is_primary(10));
    assert!(matches!(st.advance(Trigger::Prepared), Err(PbftError::InternalError(_))));
    assert_eq!(st.advance(Trigger::PrePrepare(block(1))).unwrap(), Phase::PrePreparing);
    assert_eq!(st.advance(Trigger::Prepared).unwrap(), Phase::Preparing);
    assert_eq!(st.advance(Trigger::PrepareQuorum).unwrap(), Phase::Committing);
    assert_eq!(st.advance(Trigger::CommitQuorum).unwrap(), Phase::Committed);
    assert!(matches!(st.advance(Trigger::DeadlineElapsed), Err(PbftError::InternalError(_))));
    assert_eq!(st.advance(Trigger::ChainCommitted).unwrap(), Phase::NotStarted);
    assert_eq!(st.seq, 2);
    assert_eq!(st.advance(Trigger::DeadlineElapsed).unwrap(), Phase::ViewChanging);
    assert!(matches!(st.advance(Trigger::NewView(0)), Err(PbftError::InternalError(_))));
    assert_eq!(st.advance(Trigger::NewView(2)).unwrap(), Phase::NotStarted);
    assert_eq!(st.view, 2);
    assert!(st.working_block.is_none());
}

#[test]
fn timeouts_double_per_view_change() {
    let mut t = TimeoutManager::new(100, 250);
    assert_eq!(t.duration(Phase::Preparing), 100);
    assert_eq!(t.duration(Phase::ViewChanging), 250);
    t.escalate();
    t.escalate();
    assert_eq!(t.duration(Phase::ViewChanging), 1000);
    assert_eq!(t.duration(Phase::Committing), 100);
    t.arm(5, Phase::ViewChanging);
    assert_eq!(t.deadline, Some(1005));
    assert!(!t.expired(1004));
    assert!(t.expired(1005));
    t.reset_backoff();
    assert_eq!(t.duration(Phase::ViewChanging), 250);
    t.cancel();
    assert!(!t.expired(u64::MAX));
    let mut big = TimeoutManager::new(u64::MAX, u64::MAX / 2 + 1);
    big.escalate();
    assert_eq!(big.duration(Phase::ViewChanging), u64::MAX);
    big.arm(10, Phase::Preparing);
    assert_eq!(big.deadline, Some(u64::MAX));
}

#[test]
fn bytes_helpers() {
    assert!(same_bytes(&vec![1, 2], &vec![1, 2]));
    assert!(!same_bytes(&vec![1, 2], &vec![1, 3]));
    assert!(!same_bytes(&vec![1], &vec![1, 2]));
    assert_eq!(copy_bytes(&vec![4, 5, 6]), vec![4, 5, 6]);
    let b = Block { block_id: vec![1], previous_block_id: vec![2], signer_id: 3, summary: vec![4] };
    let c = b.copy();
    assert!(b.same_block(&Block { block_id: vec![1], previous_block_id: vec![9], signer_id: 8, summary: vec![] }));
    assert!(!b.same_block(&Block { block_id: vec![2], previous_block_id: vec![2], signer_id: 3, summary: vec![4] }));
    assert_eq!((c.block_id, c.previous_block_id, c.signer_id, c.summary), (vec![1], vec![2], 3, vec![4]));
}

#[test]
fn error_descriptions() {
    assert_eq!(PbftError::Timeout.description(), "Timeout");
    assert_eq!(PbftError::NoWorkingBlock.description(), "NoWorkingBlock");
    assert_eq!(PbftError::NotFromPrimary.description(), "NotFromPrimary");
    assert_eq!(PbftError::ViewMismatch(1, 2).description(), "ViewMismatch");
    assert_eq!(PbftError::InternalError("x".to_string()).description(), "InternalError");
    assert_eq!(PbftError::MismatchedBlocks(vec![]).description(), "MismatchedBlocks");
    let e = PbftError::SerializationError(ProtobufError::MessageNotInitialized { message: "PbftMessage" });
    assert_eq!(e.description(), "SerializationError");
}

#[test]
fn error_messages() {
    assert_eq!(PbftError::Timeout.message(), "Timeout: Timed out");
    assert_eq!(PbftError::NoWorkingBlock.message(), "NoWorkingBlock: There is no working block");
    assert_eq!(
        PbftError::NotFromPrimary.message(),
        "NotFromPrimary: Message should be from primary, but was sent by secondary"
    );
    assert_eq!(PbftError::ViewMismatch(3, 10).message(), "ViewMismatch: View mismatch: 3 != 10");
    assert_eq!(PbftError::InternalError("lost state".to_string()).message(), "InternalError: lost state");
    assert_eq!(
        PbftError::MismatchedBlocks(vec![vec![0x0a, 0xff], vec![0x10]]).message(),
        "MismatchedBlocks: Mismatched blocks: [0aff, 10]"
    );
    let e = PbftError::SerializationError(ProtobufError::MessageNotInitialized { message: "PbftMessage" });
    let m = e.message();
    assert!(m.starts_with("SerializationError: "));
    assert!(m.len() > "SerializationError: ".len());
}

#[test]
fn block_ids_render_as_hex() {
    assert_eq!(block_ids_text(&vec![]), "[]");
    assert_eq!(block_ids_text(&vec![vec![0xde, 0xad], vec![], vec![0x01]]), "[dead, , 01]");
}

#[test]
fn log_forgets_superseded_view_changes() {
    let mut log = MessageLog::new();
    for (view, sender) in [(1u64, 1u64), (2, 1), (3, 2)] {
        log.record(Vote { view, seq: 0, kind: VoteKind::ViewChange, sender, block_id: vec![] }).unwrap();
    }
    log.record(vote(1, 4, VoteKind::Prepare, 1, 0xA)).unwrap();
    log.purge_view_changes(2);
    assert_eq!(log.len(), 2);
    assert_eq!(log.quorum_for(3, 0, VoteKind::ViewChange, &vec![]), 1);
    assert_eq!(log.quorum_for(1, 4, VoteKind::Prepare, &vec![0xA]), 1);
}
