use client_core::acknowledgement::{deadline_after, Action, AckController, PendingAcknowledgement};
use client_core::fragment::{split_into_fragments, FragmentIdentifier, MessageChunk};
use client_core::message::{PreparedFragment, Recipient, RECIPIENT_LENGTH};

fn recipient() -> Recipient {
    Recipient { bytes: [3u8; RECIPIENT_LENGTH] }
}

fn pending_for(chunks: Vec<MessageChunk>, delay_ms: u64) -> Vec<PendingAcknowledgement> {
    chunks
        .into_iter()
        .map(|c| PendingAcknowledgement::new(c, delay_ms, recipient()))
        .collect()
}

fn id(set_id: u64, total: u64, current: u64) -> FragmentIdentifier {
    FragmentIdentifier { set_id, total_fragments: total, current_fragment: current }
}

#[test]
fn simple_send_registers_and_clears_three_fragments() {
    let mut controller = AckController::new(500);
    let chunks = split_into_fragments(11, &vec![0u8; 30], 10);
    assert_eq!(chunks.len(), 3);
    let ids: Vec<FragmentIdentifier> = chunks.iter().map(|c| c.id).collect();
    controller.insert_pending(pending_for(chunks, 100), 1_000);
    assert_eq!(controller.len(), 3);
    assert!(ids[0] != ids[1] && ids[1] != ids[2] && ids[0] != ids[2]);
    for i in &ids {
        assert!(controller.is_pending(*i));
        assert!(controller.remove_acknowledged(*i));
    }
    assert_eq!(controller.len(), 0);
}

#[test]
fn removing_absent_id_is_a_no_op() {
    let mut controller = AckController::new(0);
    controller.insert_pending(pending_for(split_into_fragments(1, &vec![1u8; 4], 2), 10), 0);
    assert!(!controller.remove_acknowledged(id(99, 2, 0)));
    assert_eq!(controller.len(), 2);
    assert!(controller.remove_acknowledged(id(1, 2, 0)));
    assert!(!controller.remove_acknowledged(id(1, 2, 0)));
    assert_eq!(controller.len(), 1);
    assert!(controller.is_pending(id(1, 2, 1)));
}

#[test]
fn deadline_is_delay_plus_margin_and_saturates() {
    assert_eq!(deadline_after(1_000, 250, 500), 1_750);
    assert_eq!(deadline_after(u64::MAX - 10, 5, 6), u64::MAX);
    assert_eq!(deadline_after(u64::MAX, u64::MAX, u64::MAX), u64::MAX);
}

#[test]
fn expired_and_next_deadline_follow_the_deadlines() {
    let mut controller = AckController::new(100);
    assert_eq!(controller.next_deadline(), None);
    controller.insert_pending(pending_for(split_into_fragments(1, &vec![0u8; 2], 1), 50), 1_000);
    controller.insert_pending(pending_for(split_into_fragments(2, &vec![0u8; 1], 1), 10), 1_100);
    // set 1 expires at 1150, set 2 at 1210
    assert_eq!(controller.next_deadline(), Some(1_150));
    assert!(controller.expired(1_149).is_empty());
    let mut expired = controller.expired(1_150);
    expired.sort_by_key(|i| i.current_fragment);
    assert_eq!(expired, vec![id(1, 2, 0), id(1, 2, 1)]);
    assert_eq!(controller.expired(5_000).len(), 3);
}

#[test]
fn reinserting_an_id_replaces_its_entry() {
    let mut controller = AckController::new(0);
    controller.insert_pending(pending_for(split_into_fragments(4, &vec![0u8; 1], 1), 10), 0);
    controller.insert_pending(pending_for(split_into_fragments(4, &vec![0u8; 1], 1), 70), 0);
    assert_eq!(controller.len(), 1);
    assert_eq!(controller.next_deadline(), Some(70));
}

#[test]
fn timeout_retransmit_replaces_entry_under_new_id() {
    let mut controller = AckController::new(200);
    let chunks = split_into_fragments(5, &vec![7u8, 8, 9], 10);
    let old_id = chunks[0].id;
    controller.insert_pending(pending_for(chunks, 300), 0);
    assert!(controller.expired(499).is_empty());
    let expired = controller.expired(500);
    assert_eq!(expired, vec![old_id]);

    let (chunk, to) = controller.begin_retransmission(old_id, 6).expect("still pending");
    assert_eq!(chunk.id, id(6, 1, 0));
    assert_eq!(chunk.payload, vec![7u8, 8, 9]);
    assert_eq!(to, recipient());
    let new_id = chunk.id;
    let prepared = PreparedFragment { mix_packet: vec![0xAB; 4], total_delay_ms: 400 };
    let message = controller
        .complete_retransmission(old_id, chunk, to, prepared, 500)
        .expect("resent");
    assert_eq!(message.fragment_id, new_id);
    assert_eq!(message.mix_packet, vec![0xAB; 4]);
    assert_eq!(controller.len(), 1);
    assert!(!controller.is_pending(old_id));
    assert!(controller.is_pending(new_id));
    assert_eq!(controller.next_deadline(), Some(1_100));
    // the old copy's acknowledgement is now late and changes nothing
    assert!(!controller.remove_acknowledged(old_id));
    assert_eq!(controller.len(), 1);
}

#[test]
fn retransmission_under_taken_id_is_refused() {
    let mut controller = AckController::new(0);
    controller.insert_pending(pending_for(split_into_fragments(5, &vec![1u8], 1), 1), 0);
    controller.insert_pending(pending_for(split_into_fragments(6, &vec![2u8], 1), 1), 0);
    assert!(controller.begin_retransmission(id(5, 1, 0), 6).is_none());
    assert!(controller.begin_retransmission(id(5, 1, 0), 5).is_none());
    assert!(controller.begin_retransmission(id(9, 1, 0), 10).is_none());
}

#[test]
fn acknowledgement_wins_race_against_retransmission() {
    let mut controller = AckController::new(0);
    controller.insert_pending(pending_for(split_into_fragments(5, &vec![1u8], 1), 1), 0);
    let (chunk, to) = controller.begin_retransmission(id(5, 1, 0), 8).unwrap();
    assert!(controller.remove_acknowledged(id(5, 1, 0)));
    let prepared = PreparedFragment { mix_packet: vec![1], total_delay_ms: 1 };
    assert!(controller.complete_retransmission(id(5, 1, 0), chunk, to, prepared, 10).is_none());
    assert_eq!(controller.len(), 0);
}

#[test]
fn apply_dispatches_each_action() {
    let mut controller = AckController::new(10);
    let acks = pending_for(split_into_fragments(3, &vec![0u8; 2], 1), 5);
    assert_eq!(controller.apply(Action::new_insert(acks), 100), None);
    assert_eq!(controller.len(), 2);
    assert_eq!(controller.next_deadline(), Some(115));
    assert_eq!(controller.apply(Action::RetransmitExpired(id(3, 2, 1)), 200), Some(id(3, 2, 1)));
    assert_eq!(controller.len(), 2);
    assert_eq!(controller.apply(Action::RemoveAcknowledged(id(3, 2, 1)), 200), None);
    assert_eq!(controller.apply(Action::RetransmitExpired(id(3, 2, 1)), 200), None);
    assert_eq!(controller.len(), 1);
}
