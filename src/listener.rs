use crate::acknowledgement::{ack_ids, Action, PendingAcknowledgement};
use crate::fragment::{
    attach_reply_surb, chunk_views, fragments_of, joined_payloads, lemma_fragment_ids_distinct,
    lemma_fragmentation_round_trip,
    outgoing_bytes, split_into_fragments, ChunkView, FragmentIdentifier, MessageChunk,
};
use crate::message::{PreparedFragment, RealMessage, Recipient};
use vstd::prelude::*;

verus! {

/// The decisions of the input message listener: which messages are dropped,
/// how a fresh message is framed and split, and what is sent and registered
/// for it. Topology checks, packet preparation and the channels are run by
/// the caller, which hands their outcomes in.
pub struct InputMessageListener {
    packet_payload_capacity: usize,
    reply_surbs_enabled: bool,
}

/// The fragments of a fresh message: its content, preceded by the reply SURB
/// if one is attached, split under message id `set_id`.
pub open spec fn fresh_fragments(
    set_id: u64,
    content: Seq<u8>,
    reply_surb: Option<Seq<u8>>,
    capacity: nat,
) -> Seq<ChunkView> {
    fragments_of(set_id, outgoing_bytes(content, reply_surb), capacity)
}

/// The fragments of a fresh message join back, in fragment-index order, to
/// its content when no reply SURB is attached, and to the SURB followed by the
/// content when one is.
pub proof fn lemma_fresh_message_round_trip(
    set_id: u64,
    content: Seq<u8>,
    reply_surb: Option<Seq<u8>>,
    capacity: nat,
)
    requires
        capacity > 0,
        outgoing_bytes(content, reply_surb).len() <= usize::MAX,
    ensures
        reply_surb is None ==> joined_payloads(fresh_fragments(set_id, content, reply_surb, capacity))
            == content,
        reply_surb matches Some(s) ==> joined_payloads(
            fresh_fragments(set_id, content, reply_surb, capacity),
        ) == s + content,
{
    lemma_fragmentation_round_trip(set_id, outgoing_bytes(content, reply_surb), capacity);
}

/// The pending acknowledgements built for the fragments of one fresh message,
/// one per fragment in order, carry pairwise distinct identifiers: the
/// insertion command holds at most one entry per fragment.
pub proof fn lemma_fresh_acks_distinct(
    set_id: u64,
    content: Seq<u8>,
    reply_surb: Option<Seq<u8>>,
    capacity: nat,
    acks: Seq<PendingAcknowledgement>,
)
    requires
        capacity > 0,
        outgoing_bytes(content, reply_surb).len() <= usize::MAX,
        acks.len() == fresh_fragments(set_id, content, reply_surb, capacity).len(),
        forall|i: int|
            0 <= i < acks.len() ==> #[trigger] acks[i].message_chunk@ == fresh_fragments(
                set_id,
                content,
                reply_surb,
                capacity,
            )[i],
    ensures
        ack_ids(acks).no_duplicates(),
{
    let frags = fresh_fragments(set_id, content, reply_surb, capacity);
    lemma_fragment_ids_distinct(set_id, outgoing_bytes(content, reply_surb), capacity);
    assert forall|i: int, j: int|
        0 <= i < ack_ids(acks).len() && 0 <= j < ack_ids(acks).len() && i != j implies ack_ids(
        acks,
    )[i] != ack_ids(acks)[j] by {
        assert(acks[i].message_chunk@ == frags[i]);
        assert(acks[j].message_chunk@ == frags[j]);
    }
}

impl InputMessageListener {
    #[verifier::type_invariant]
    spec fn inv(&self) -> bool {
        self.packet_payload_capacity > 0
    }

    /// Plaintext bytes that fit in one packet.
    pub closed spec fn capacity(&self) -> nat {
        self.packet_payload_capacity as nat
    }

    /// Whether this listener attaches reply SURBs to fresh messages.
    pub closed spec fn surbs_enabled(&self) -> bool {
        self.reply_surbs_enabled
    }

    /// A listener whose packets carry `packet_payload_capacity` plaintext
    /// bytes each; `None` when that capacity is zero.
    pub fn new(packet_payload_capacity: usize, reply_surbs_enabled: bool) -> (listener: Option<
        Self,
    >)
        ensures
            listener is Some <==> packet_payload_capacity > 0,
            listener matches Some(l) ==> l.capacity() == packet_payload_capacity && l.surbs_enabled()
                == reply_surbs_enabled,
    {
        if packet_payload_capacity == 0 {
            None
        } else {
            Some(InputMessageListener { packet_payload_capacity, reply_surbs_enabled })
        }
    }

    /// Whether a reply SURB is to be built for a fresh message that asks
    /// for one or not.
    pub fn wants_reply_surb(&self, with_reply_surb: bool) -> (wanted: bool)
        ensures
            wanted == (with_reply_surb && self.surbs_enabled()),
    {
        with_reply_surb && self.reply_surbs_enabled
    }

    /// First step for a fresh message. Without a valid topology the message
    /// is dropped (`None`). Otherwise its content, preceded by `reply_surb`
    /// when this listener attaches SURBs, is split under message id `set_id`
    /// into the fragments to prepare, in index order: without a SURB, the
    /// fragments' plaintext concatenates back to exactly the content.
    pub fn handle_fresh_message(
        &self,
        topology_valid: bool,
        set_id: u64,
        content: &Vec<u8>,
        reply_surb: Option<&Vec<u8>>,
    ) -> (chunks: Option<Vec<MessageChunk>>)
        ensures
            self.capacity() > 0,
            chunks is Some <==> topology_valid,
            chunks matches Some(cs) ==> chunk_views(cs@) == fresh_fragments(
                set_id,
                content@,
                if self.surbs_enabled() {
                    match reply_surb {
                        Some(s) => Some(s@),
                        None => None,
                    }
                } else {
                    None
                },
                self.capacity(),
            ),
    {
        proof {
            use_type_invariant(self);
        }
        if !topology_valid {
            return None;
        }
        match reply_surb {
            Some(surb) if self.reply_surbs_enabled => {
                let framed = attach_reply_surb(content, surb);
                Some(split_into_fragments(set_id, &framed, self.packet_payload_capacity))
            },
            _ => Some(split_into_fragments(set_id, content, self.packet_payload_capacity)),
        }
    }

    /// Second step for a fresh message: each fragment paired with its
    /// prepared packet gives one message for the egress queue and one pending
    /// acknowledgement for `recipient`, in the same order; the pending
    /// acknowledgements travel together in one insertion command.
    pub fn prepare_fresh_messages(
        &self,
        prepared: Vec<(MessageChunk, PreparedFragment)>,
        recipient: Recipient,
    ) -> (out: (Vec<RealMessage>, Action))
        ensures
            out.0@.len() == prepared@.len(),
            out.1 matches Action::InsertPending(acks) && acks@.len() == prepared@.len() && forall|
                i: int,
            |
                0 <= i < prepared@.len() ==> {
                    &&& (#[trigger] out.0@[i]).fragment_id == prepared@[i].0.id
                    &&& out.0@[i].mix_packet == prepared@[i].1.mix_packet
                    &&& acks@[i].message_chunk == prepared@[i].0
                    &&& acks@[i].delay_ms == prepared@[i].1.total_delay_ms
                    &&& acks@[i].recipient == recipient
                },
    {
        let ghost pairs = prepared@;
        let mut real_messages: Vec<RealMessage> = Vec::new();
        let mut pending_acks: Vec<PendingAcknowledgement> = Vec::new();
        for pair in it: prepared
            invariant
                it.seq() == pairs,
                real_messages@.len() == it.index(),
                pending_acks@.len() == it.index(),
                forall|i: int|
                    0 <= i < it.index() ==> {
                        &&& (#[trigger] real_messages@[i]).fragment_id == pairs[i].0.id
                        &&& real_messages@[i].mix_packet == pairs[i].1.mix_packet
                        &&& pending_acks@[i].message_chunk == pairs[i].0
                        &&& pending_acks@[i].delay_ms == pairs[i].1.total_delay_ms
                        &&& pending_acks@[i].recipient == recipient
                    },
        {
            let (chunk, fragment) = pair;
            real_messages.push(RealMessage::new(fragment.mix_packet, chunk.id));
            pending_acks.push(PendingAcknowledgement::new(chunk, fragment.total_delay_ms, recipient));
        }
        (real_messages, Action::new_insert(pending_acks))
    }

    /// A reply through a SURB. Without a valid topology it is dropped; when
    /// preparation failed (`prepared` is `None`) it is dropped too. Otherwise
    /// the prepared packet is the one message to send; no acknowledgement is
    /// registered for it.
    pub fn handle_reply(
        &self,
        topology_valid: bool,
        prepared: Option<(Vec<u8>, FragmentIdentifier)>,
    ) -> (message: Option<RealMessage>)
        ensures
            message is Some <==> (topology_valid && prepared is Some),
            message matches Some(m) ==> prepared matches Some((packet, id)) && m.mix_packet
                == packet && m.fragment_id == id,
    {
        if !topology_valid {
            return None;
        }
        match prepared {
            Some((packet, reply_id)) => Some(RealMessage::new(packet, reply_id)),
            None => None,
        }
    }
}

} // verus!
