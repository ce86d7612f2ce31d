use crate::header::MessageHeader;
use std::collections::BTreeMap;
use vstd::prelude::*;

verus! {

/// Errors reported by the MCAP writer.
#[verifier::external_type_specification]
#[verifier::external_body]
pub struct ExMcapError(mcap::McapError);

/// Severity of a recorded event.
#[verifier::external_type_specification]
#[verifier::external_body]
pub struct ExLevel(tracing::Level);

/// An MCAP writer over an in-memory, seekable buffer. Opaque: its contents
/// are reached through the names below and through `into_bytes`.
#[verifier::external_body]
pub struct Sink {
    inner: mcap::Writer<std::io::Cursor<Vec<u8>>>,
}

/// Whether `finish` has succeeded on the writer; its write methods then panic.
pub uninterp spec fn sink_finished(s: Sink) -> bool;

/// The channels for which the writer's `add_channel` returned `Ok`, in
/// order, as (topic, channel id).
pub uninterp spec fn sink_channels(s: Sink) -> Seq<(Seq<char>, u16)>;

/// The messages for which the writer's `write_to_known_channel` returned
/// `Ok`, in order, as (header, payload).
pub uninterp spec fn sink_messages(s: Sink) -> Seq<(MessageHeader, Seq<u8>)>;

/// How many ids the writer's `add_schema` and `add_channel` have counted off,
/// together. Each counter starts at 1 and overflows after handing out 65535.
pub uninterp spec fn sink_ids_used(s: Sink) -> nat;

impl Sink {
    /// Relies on mcap::Writer::new: starts an MCAP stream (magic and header
    /// record) in an empty buffer, or reports why it could not.
    #[verifier::external_body]
    pub(crate) fn open() -> (r: Result<Sink, mcap::McapError>)
        ensures
            r is Ok ==> !sink_finished(r->Ok_0),
            r is Ok ==> sink_channels(r->Ok_0) == Seq::<(Seq<char>, u16)>::empty(),
            r is Ok ==> sink_messages(r->Ok_0) == Seq::<(MessageHeader, Seq<u8>)>::empty(),
            r is Ok ==> sink_ids_used(r->Ok_0) == 0,
    {
        match mcap::Writer::new(std::io::Cursor::new(Vec::new())) {
            Ok(inner) => Ok(Sink { inner }),
            Err(e) => Err(e),
        }
    }

    /// Relies on mcap::Writer::add_schema: writes a schema record (or reuses
    /// one with the same content) and returns its id; it bumps the schema id
    /// counter at most once, and panics on a finished writer.
    #[verifier::external_body]
    pub(crate) fn add_schema(&mut self, name: &str, encoding: &str, data: &[u8]) -> (r: Result<
        u16,
        mcap::McapError,
    >)
        requires
            !sink_finished(*old(self)),
            sink_ids_used(*old(self)) < 65534,
        ensures
            !sink_finished(*final(self)),
            sink_channels(*final(self)) == sink_channels(*old(self)),
            sink_messages(*final(self)) == sink_messages(*old(self)),
            sink_ids_used(*final(self)) <= sink_ids_used(*old(self)) + 1,
    {
        self.inner.add_schema(name, encoding, data)
    }

    /// Relies on mcap::Writer::add_channel: for a topic none of its channels
    /// has (so the content is new), writes a channel record under the next
    /// unused id and returns that id; it bumps the channel id counter at most
    /// once, and panics on a finished writer.
    #[verifier::external_body]
    pub(crate) fn add_channel(
        &mut self,
        schema_id: u16,
        topic: &str,
        message_encoding: &str,
        metadata: &BTreeMap<String, String>,
    ) -> (r: Result<u16, mcap::McapError>)
        requires
            !sink_finished(*old(self)),
            sink_ids_used(*old(self)) < 65534,
            forall|i: int| 0 <= i < sink_channels(*old(self)).len() ==> (#[trigger] sink_channels(*old(self))[i]).0 != topic@,
        ensures
            !sink_finished(*final(self)),
            sink_messages(*final(self)) == sink_messages(*old(self)),
            sink_ids_used(*final(self)) <= sink_ids_used(*old(self)) + 1,
            match r {
                Ok(id) => {
                    &&& sink_channels(*final(self)) == sink_channels(*old(self)).push((topic@, id))
                    &&& forall|i: int| 0 <= i < sink_channels(*old(self)).len() ==> (#[trigger] sink_channels(*old(self))[i]).1 != id
                },
                Err(_) => sink_channels(*final(self)) == sink_channels(*old(self)),
            },
    {
        self.inner.add_channel(schema_id, topic, message_encoding, metadata)
    }

    /// Relies on mcap::Writer::write_to_known_channel: appends one message
    /// record with the given header and payload; panics on a finished writer.
    #[verifier::external_body]
    pub(crate) fn write_message(&mut self, header: &MessageHeader, data: &[u8]) -> (r: Result<
        (),
        mcap::McapError,
    >)
        requires
            !sink_finished(*old(self)),
        ensures
            !sink_finished(*final(self)),
            sink_channels(*final(self)) == sink_channels(*old(self)),
            sink_ids_used(*final(self)) == sink_ids_used(*old(self)),
            r is Ok ==> sink_messages(*final(self)) == sink_messages(*old(self)).push((*header, data@)),
            r is Err ==> sink_messages(*final(self)) == sink_messages(*old(self)),
    {
        let header = mcap::records::MessageHeader {
            channel_id: header.channel_id,
            sequence: header.sequence,
            log_time: header.log_time,
            publish_time: header.publish_time,
        };
        self.inner.write_to_known_channel(&header, data)
    }

    /// Relies on mcap::Writer::finish: writes the summary section and footer.
    /// The writer's other methods must not be called afterwards.
    #[verifier::external_body]
    pub(crate) fn finish(&mut self) -> (r: Result<(), mcap::McapError>)
        ensures
            r is Ok ==> sink_finished(*final(self)),
            sink_channels(*final(self)) == sink_channels(*old(self)),
            sink_ids_used(*final(self)) == sink_ids_used(*old(self)),
            sink_messages(*final(self)) == sink_messages(*old(self)),
    {
        match self.inner.finish() {
            Ok(_summary) => Ok(()),
            Err(e) => Err(e),
        }
    }

    /// Relies on mcap::Writer::into_inner and std::io::Cursor::into_inner:
    /// hands back the bytes written so far.
    #[verifier::external_body]
    pub(crate) fn into_bytes(self) -> (r: Vec<u8>) {
        self.inner.into_inner().into_inner()
    }
}

/// Relies on std::time::SystemTime::now and duration_since(UNIX_EPOCH): the
/// wall clock in nanoseconds since the Unix epoch, or `None` when it reads
/// earlier than the epoch. Nothing is known of the value.
#[verifier::external_body]
pub(crate) fn wall_clock_nanos() -> (r: Option<u128>) {
    match std::time::SystemTime::now().duration_since(std::time::UNIX_EPOCH) {
        Ok(d) => Some(d.as_nanos()),
        Err(_) => None,
    }
}

} // verus!
