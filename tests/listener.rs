use client_core::acknowledgement::{Action, AckController};
use client_core::fragment::{join_fragments, FragmentIdentifier, MessageChunk};
use client_core::listener::InputMessageListener;
use client_core::message::{PreparedFragment, Recipient, RECIPIENT_LENGTH};

fn recipient() -> Recipient {
    Recipient { bytes: [9u8; RECIPIENT_LENGTH] }
}

fn prepare(chunks: Vec<MessageChunk>) -> Vec<(MessageChunk, PreparedFragment)> {
    chunks
        .into_iter()
        .map(|c| {
            let packet = vec![c.id.current_fragment as u8; 3];
            (c, PreparedFragment { mix_packet: packet, total_delay_ms: 40 })
        })
        .collect()
}

#[test]
fn zero_capacity_listener_is_refused() {
    assert!(InputMessageListener::new(0, false).is_none());
    assert!(InputMessageListener::new(1, false).is_some());
}

#[test]
fn fresh_message_is_dropped_without_topology() {
    let listener = InputMessageListener::new(8, true).unwrap();
    let surb = vec![1u8, 2];
    assert!(listener.handle_fresh_message(false, 1, &vec![5u8; 20], Some(&surb)).is_none());
    assert!(listener.handle_fresh_message(false, 1, &vec![5u8; 20], None).is_none());
}

#[test]
fn reply_is_dropped_without_topology() {
    let listener = InputMessageListener::new(8, true).unwrap();
    let reply_id = FragmentIdentifier { set_id: 1, total_fragments: 1, current_fragment: 0 };
    assert!(listener.handle_reply(false, Some((vec![1, 2, 3], reply_id))).is_none());
    assert!(listener.handle_reply(false, None).is_none());
}

#[test]
fn reply_path_yields_one_message_and_registers_nothing() {
    let listener = InputMessageListener::new(8, true).unwrap();
    let controller = AckController::new(100);
    let reply_id = FragmentIdentifier { set_id: 77, total_fragments: 1, current_fragment: 0 };
    let message = listener.handle_reply(true, Some((vec![4, 5, 6], reply_id))).unwrap();
    assert_eq!(message.mix_packet, vec![4, 5, 6]);
    assert_eq!(message.fragment_id, reply_id);
    assert_eq!(controller.len(), 0);
}

#[test]
fn failed_reply_preparation_drops_the_reply() {
    let listener = InputMessageListener::new(8, true).unwrap();
    assert!(listener.handle_reply(true, None).is_none());
}

#[test]
fn fresh_message_without_surb_splits_its_content() {
    let listener = InputMessageListener::new(4, false).unwrap();
    let content: Vec<u8> = (1..=10).collect();
    let chunks = listener.handle_fresh_message(true, 3, &content, None).unwrap();
    assert_eq!(chunks.len(), 3);
    assert_eq!(chunks[0].payload, vec![1, 2, 3, 4]);
    assert_eq!(chunks[2].payload, vec![9, 10]);
    assert_eq!(join_fragments(&chunks), content);
}

#[test]
fn one_byte_message_joins_back_to_itself() {
    let listener = InputMessageListener::new(8, true).unwrap();
    let chunks = listener.handle_fresh_message(true, 1, &vec![42u8], None).unwrap();
    assert_eq!(chunks.len(), 1);
    assert_eq!(join_fragments(&chunks), vec![42u8]);
}

#[test]
fn reply_surb_is_embedded_only_when_enabled() {
    let surb = vec![0xEE; 5];
    let enabled = InputMessageListener::new(64, true).unwrap();
    assert!(enabled.wants_reply_surb(true));
    assert!(!enabled.wants_reply_surb(false));
    let chunks = enabled.handle_fresh_message(true, 1, &vec![7, 7], Some(&surb)).unwrap();
    assert_eq!(join_fragments(&chunks), vec![0xEE, 0xEE, 0xEE, 0xEE, 0xEE, 7, 7]);

    let disabled = InputMessageListener::new(64, false).unwrap();
    assert!(!disabled.wants_reply_surb(true));
    let chunks = disabled.handle_fresh_message(true, 1, &vec![7, 7], Some(&surb)).unwrap();
    assert_eq!(join_fragments(&chunks), vec![7, 7]);
}

#[test]
fn simple_send_of_three_fragments() {
    let listener = InputMessageListener::new(10, false).unwrap();
    let mut controller = AckController::new(1_000);
    // 30 bytes of content make three fragments of ten
    let chunks = listener.handle_fresh_message(true, 21, &vec![1u8; 30], None).unwrap();
    assert_eq!(chunks.len(), 3);
    let (messages, action) = listener.prepare_fresh_messages(prepare(chunks), recipient());
    assert_eq!(messages.len(), 3);
    let ids: Vec<FragmentIdentifier> = messages.iter().map(|m| m.fragment_id).collect();
    for (i, m) in messages.iter().enumerate() {
        assert_eq!(m.fragment_id.current_fragment, i as u64);
        assert_eq!(m.mix_packet, vec![i as u8; 3]);
    }
    match &action {
        Action::InsertPending(acks) => {
            assert_eq!(acks.len(), 3);
            for (i, a) in acks.iter().enumerate() {
                assert_eq!(a.message_chunk.id, ids[i]);
                assert_eq!(a.delay_ms, 40);
                assert_eq!(a.recipient, recipient());
            }
        }
        _ => panic!("expected an insertion"),
    }
    assert_eq!(controller.apply(action, 0), None);
    assert_eq!(controller.len(), 3);
    for i in &ids {
        assert_eq!(controller.apply(Action::RemoveAcknowledged(*i), 10), None);
    }
    assert_eq!(controller.len(), 0);
}
