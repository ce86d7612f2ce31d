use vstd::prelude::*;

verus! {

/// Envelope written in front of each payload: the channel it belongs to, its
/// position within its topic, and when it was logged and published
/// (nanoseconds since the Unix epoch).
#[derive(Clone, Copy, Debug, PartialEq, Eq, Structural)]
pub struct MessageHeader {
    pub channel_id: u16,
    pub sequence: u32,
    pub log_time: u64,
    pub publish_time: u64,
}

pub open spec fn max_u64(a: u64, b: u64) -> u64 {
    if a >= b { a } else { b }
}

/// The header of the first message on a topic registered as `channel_id`.
pub open spec fn first_header(channel_id: u16, now: u64) -> MessageHeader {
    MessageHeader { channel_id, sequence: 0, log_time: now, publish_time: now }
}

/// The header that follows `prev` on the same topic: the sequence moves on by
/// one and the timestamps never go back, whatever the clock says.
pub open spec fn next_header(prev: MessageHeader, now: u64) -> MessageHeader {
    MessageHeader {
        channel_id: prev.channel_id,
        sequence: (prev.sequence + 1) as u32,
        log_time: max_u64(now, prev.log_time),
        publish_time: max_u64(now, prev.publish_time),
    }
}

impl MessageHeader {
    /// The header of the first message on a freshly registered channel.
    pub fn first(channel_id: u16, now: u64) -> (r: MessageHeader)
        ensures
            r == first_header(channel_id, now),
    {
        MessageHeader { channel_id, sequence: 0, log_time: now, publish_time: now }
    }

    /// The header of the message that follows `self` on the same topic, or
    /// `None` when the sequence counter has no room left.
    pub fn next(&self, now: u64) -> (r: Option<MessageHeader>)
        ensures
            self.sequence == u32::MAX ==> r.is_none(),
            self.sequence < u32::MAX ==> r == Some(next_header(*self, now)),
    {
        if self.sequence == u32::MAX {
            return None;
        }
        let log_time = if now >= self.log_time { now } else { self.log_time };
        let publish_time = if now >= self.publish_time { now } else { self.publish_time };
        Some(MessageHeader {
            channel_id: self.channel_id,
            sequence: self.sequence + 1,
            log_time,
            publish_time,
        })
    }
}

} // verus!
