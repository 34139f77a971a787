use crate::fragment::FragmentIdentifier;
use vstd::prelude::*;

verus! {

/// Length in bytes of an encoded client address.
pub const RECIPIENT_LENGTH: usize = 96;

/// Address of a client of the mix network, kept as its encoded bytes
/// (identity key, encryption key and gateway identity).
#[derive(Clone, Copy, Debug, PartialEq, Eq)]
pub struct Recipient {
    pub bytes: [u8; RECIPIENT_LENGTH],
}

/// Encrypted output of packet preparation for one fragment: the packet ready
/// for transport and the mixing delay it is expected to accumulate on its way
/// out and back, in milliseconds.
#[derive(Debug)]
pub struct PreparedFragment {
    pub mix_packet: Vec<u8>,
    pub total_delay_ms: u64,
}

/// The unit pushed onto the egress queue: an encrypted packet and the
/// fragment it carries.
#[derive(Debug)]
pub struct RealMessage {
    pub mix_packet: Vec<u8>,
    pub fragment_id: FragmentIdentifier,
}

impl RealMessage {
    pub fn new(mix_packet: Vec<u8>, fragment_id: FragmentIdentifier) -> (message: Self)
        ensures
            message.mix_packet == mix_packet,
            message.fragment_id == fragment_id,
    {
        RealMessage { mix_packet, fragment_id }
    }
}

/// An outbound message handed to the client by the application.
#[derive(Debug)]
pub enum InputMessage {
    /// A new message for `recipient`, optionally carrying a reply SURB so the
    /// recipient can answer anonymously.
    Fresh { recipient: Recipient, data: Vec<u8>, with_reply_surb: bool },
    /// An answer sent through a reply SURB received earlier.
    Reply { reply_surb: Vec<u8>, data: Vec<u8> },
}

} // verus!
