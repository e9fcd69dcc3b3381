use vstd::prelude::*;

verus! {

/// What reading the next packet of the input brought.
#[derive(Debug, Clone, Copy, PartialEq, Eq, Structural)]
pub enum DecodeEvent {
    /// No packet could be read: the stream ended or broke.
    NoPacket,
    /// A packet of a track other than the one being decoded.
    OtherTrack,
    /// The packet decoded into samples.
    Decoded,
    /// The packet could not be decoded, but the stream goes on.
    TransientError,
    /// Decoding failed in a way that the stream does not recover from.
    FatalError,
}

/// What the decode loop does next.
#[derive(Debug, Clone, Copy, PartialEq, Eq, Structural)]
pub enum DecodeAction {
    /// Append the decoded samples and read the next packet.
    Append,
    /// Drop the packet and read the next one.
    SkipPacket,
    /// Stop decoding and keep the samples collected so far.
    Stop,
}

/// Decode policy: samples are appended, packets of other tracks and packets
/// with a transient error are skipped, and decoding stops at the end of the
/// stream or at the first unrecoverable error.
pub fn next_action(event: DecodeEvent) -> (r: DecodeAction)
    ensures
        r == DecodeAction::Append <==> event == DecodeEvent::Decoded,
        r == DecodeAction::SkipPacket <==> (event == DecodeEvent::OtherTrack || event
            == DecodeEvent::TransientError),
        r == DecodeAction::Stop <==> (event == DecodeEvent::NoPacket || event
            == DecodeEvent::FatalError),
{
    match event {
        DecodeEvent::Decoded => DecodeAction::Append,
        DecodeEvent::OtherTrack | DecodeEvent::TransientError => DecodeAction::SkipPacket,
        DecodeEvent::NoPacket | DecodeEvent::FatalError => DecodeAction::Stop,
    }
}

} // verus!
