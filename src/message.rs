use std::collections::BTreeMap;
use vstd::prelude::*;

verus! {

/// A schema to register with a channel: its name, the encoding of the schema
/// itself, and the schema bytes.
pub struct SchemaDescriptor {
    pub name: String,
    pub encoding: String,
    pub data: Vec<u8>,
}

/// How the messages of one topic are recorded: an optional schema, the
/// encoding of each message, and free-form metadata. The topic name is not
/// part of it: it always comes from `McapMessage::topic`, so a descriptor
/// cannot contradict the topic it is registered for.
pub struct ChannelDescriptor {
    pub schema: Option<SchemaDescriptor>,
    pub message_encoding: String,
    pub metadata: BTreeMap<String, String>,
}

/// A payload that can be recorded by `McapLogger`.
///
/// `topic` must give the same name for every value of one logical stream.
/// `channel` is asked for only once per topic, the first time a value of that
/// topic is recorded, so it may be expensive. `message` encodes the value in
/// the encoding that `channel` declares.
pub trait McapMessage {
    type Error;

    fn topic(&self) -> &'static str;

    fn channel(&self) -> ChannelDescriptor;

    fn message(&self) -> Result<Vec<u8>, Self::Error>;
}

} // verus!
