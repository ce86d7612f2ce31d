use crate::header::{first_header, next_header, MessageHeader};
use crate::message::{ChannelDescriptor, McapMessage};
use crate::outside::{sink_channels, sink_finished, sink_ids_used, sink_messages, wall_clock_nanos, Sink};
use crate::registry::{Registry, TopicRecord};
use vstd::prelude::*;

verus! {

/// How many schema and channel ids the logger asks the stream for, at most.
/// The stream's id counters overflow beyond this.
pub const ID_BUDGET: u64 = 65532;

/// Why a call on the logger failed.
#[derive(Debug)]
pub enum LoggerError<E> {
    /// The payload could not be encoded; nothing was written.
    Serialization(E),
    /// The stream refused a new channel; a schema record may have been
    /// written for it, but no channel and no message.
    ChannelRegistration(mcap::McapError),
    /// The stream refused a write.
    Append(mcap::McapError),
    /// The stream could not be finished.
    Finalize(mcap::McapError),
    /// The logger was already closed; nothing was written.
    Closed,
    /// The topic's sequence counter has reached `u32::MAX`; nothing was written.
    SequenceExhausted,
    /// The stream has no ids left for another channel; nothing was written.
    TooManyChannels,
}

/// Records events into an MCAP stream, one channel per topic.
///
/// Each topic's channel is registered lazily, on the topic's first event,
/// and never again. Each appended message carries a per-topic sequence number
/// that starts at 0 and grows by one, and timestamps that never go back.
/// The logger is exclusively borrowed by every call that touches the stream,
/// so concurrent callers share it behind a single lock.
pub struct McapLogger {
    sink: Sink,
    closed: bool,
    registry: Registry,
    /// Schema and channel ids asked of the stream so far.
    ids_requested: u64,
    /// The headers of the messages appended on each registered topic, in order.
    written: Ghost<Map<Seq<char>, Seq<MessageHeader>>>,
}

impl McapLogger {
    /// Whether the stream has been finished.
    pub closed spec fn spec_closed(&self) -> bool {
        self.closed
    }

    /// The registry: for each topic with a channel, its channel id and the
    /// header of its last appended message.
    pub closed spec fn topics(&self) -> Map<Seq<char>, TopicRecord> {
        self.registry@
    }

    /// The headers appended so far on each topic that has a channel.
    pub closed spec fn history(&self) -> Map<Seq<char>, Seq<MessageHeader>> {
        self.written@
    }

    /// The channels in the stream, as (topic, channel id), in order.
    pub closed spec fn registrations(&self) -> Seq<(Seq<char>, u16)> {
        sink_channels(self.sink)
    }

    /// The messages in the stream, as (header, payload), in order.
    pub closed spec fn messages(&self) -> Seq<(MessageHeader, Seq<u8>)> {
        sink_messages(self.sink)
    }

    /// Schema and channel ids asked of the stream so far.
    pub closed spec fn spec_ids_requested(&self) -> u64 {
        self.ids_requested
    }

    /// Headers appended on `t` so far (none for a topic without a channel).
    pub open spec fn history_of(&self, t: Seq<char>) -> Seq<MessageHeader> {
        if self.history().contains_key(t) {
            self.history()[t]
        } else {
            Seq::empty()
        }
    }

    pub closed spec fn wf(&self) -> bool {
        &&& self.registry.wf()
        &&& !self.closed ==> !sink_finished(self.sink)
        &&& sink_ids_used(self.sink) <= self.ids_requested
        &&& Self::channels_ok(self.registry@, sink_channels(self.sink))
        &&& forall|t: Seq<char>|
            #[trigger] self.written@.contains_key(t) <==> self.registry@.contains_key(t)
        &&& forall|t: Seq<char>| #[trigger]
            self.written@.contains_key(t) ==> Self::topic_ok(self.registry@[t], self.written@[t])
    }

    /// The channels `ch` of the stream are those of the registry `reg`: one
    /// per topic, each under its own id.
    pub open spec fn channels_ok(reg: Map<Seq<char>, TopicRecord>, ch: Seq<(Seq<char>, u16)>) -> bool {
        &&& forall|i: int, j: int|
            0 <= i < j < ch.len() ==> (#[trigger] ch[i]).0 != (#[trigger] ch[j]).0 && ch[i].1 != ch[j].1
        &&& forall|i: int|
            0 <= i < ch.len() ==> reg.contains_key((#[trigger] ch[i]).0) && reg[ch[i].0].channel_id == ch[i].1
        &&& forall|t: Seq<char>|
            #[trigger] reg.contains_key(t) ==> exists|i: int| 0 <= i < ch.len() && ch[i].0 == t
    }

    /// The headers `h` of a topic whose record is `rec` are numbered from 0,
    /// all name the topic's channel, carry non-decreasing timestamps, and the
    /// last of them is the one the record holds.
    pub open spec fn topic_ok(rec: TopicRecord, h: Seq<MessageHeader>) -> bool {
        &&& forall|i: int| 0 <= i < h.len() ==> (#[trigger] h[i]).sequence == i
        &&& forall|i: int| 0 <= i < h.len() ==> (#[trigger] h[i]).channel_id == rec.channel_id
        &&& forall|i: int, j: int|
            0 <= i <= j < h.len() ==> (#[trigger] h[i]).log_time <= (#[trigger] h[j]).log_time
                && h[i].publish_time <= h[j].publish_time
        &&& rec.last == (if h.len() == 0 {
            None::<MessageHeader>
        } else {
            Some(h.last())
        })
    }

    /// `a` and `b` agree on everything the logger records and the stream holds.
    pub open spec fn same_state(a: McapLogger, b: McapLogger) -> bool {
        &&& a.spec_closed() == b.spec_closed()
        &&& a.topics() == b.topics()
        &&& a.history() == b.history()
        &&& a.registrations() == b.registrations()
        &&& a.messages() == b.messages()
    }

    /// The header that the next message on `t` gets at time `now`, on a topic
    /// that already has a channel.
    pub open spec fn expected_header(&self, t: Seq<char>, now: u64) -> MessageHeader {
        match self.topics()[t].last {
            Some(prev) => next_header(prev, now),
            None => first_header(self.topics()[t].channel_id, now),
        }
    }

    /// `post` is `pre` after a write on topic `t` failed: nothing changed,
    /// but that a new topic keeps the channel registered for it.
    pub open spec fn append_failed(pre: McapLogger, post: McapLogger, t: Seq<char>) -> bool {
        if pre.topics().contains_key(t) {
            Self::same_state(pre, post)
        } else {
            &&& post.spec_closed() == pre.spec_closed()
            &&& post.messages() == pre.messages()
            &&& post.history() == pre.history().insert(t, Seq::empty())
            &&& post.topics() == pre.topics().insert(
                t,
                TopicRecord { channel_id: post.topics()[t].channel_id, last: None },
            )
            &&& post.registrations() == pre.registrations().push((t, post.topics()[t].channel_id))
        }
    }

    /// `post` is `pre` after appending a message with header `h` and payload
    /// `data` on topic `t` at time `now`; a new topic's channel is registered
    /// first, under an id of its own.
    pub open spec fn appended(
        pre: McapLogger,
        post: McapLogger,
        t: Seq<char>,
        now: u64,
        data: Seq<u8>,
        h: MessageHeader,
    ) -> bool {
        &&& !pre.spec_closed() && !post.spec_closed()
        &&& if pre.topics().contains_key(t) {
            &&& h == pre.expected_header(t, now)
            &&& post.registrations() == pre.registrations()
        } else {
            &&& h == first_header(h.channel_id, now)
            &&& post.registrations() == pre.registrations().push((t, h.channel_id))
        }
        &&& post.messages() == pre.messages().push((h, data))
        &&& post.topics() == pre.topics().insert(t, TopicRecord { channel_id: h.channel_id, last: Some(h) })
        &&& post.history() == pre.history().insert(t, pre.history_of(t).push(h))
    }

    /// Starts a logger over a fresh in-memory MCAP stream, with no topics.
    pub fn new() -> (r: Result<McapLogger, LoggerError<std::convert::Infallible>>)
        ensures
            match r {
                Ok(l) => {
                    &&& l.wf()
                    &&& !l.spec_closed()
                    &&& l.topics() == Map::<Seq<char>, TopicRecord>::empty()
                    &&& l.history() == Map::<Seq<char>, Seq<MessageHeader>>::empty()
                    &&& l.registrations() == Seq::<(Seq<char>, u16)>::empty()
                    &&& l.messages() == Seq::<(MessageHeader, Seq<u8>)>::empty()
                    &&& l.spec_ids_requested() == 0
                },
                Err(e) => e is Append,
            },
    {
        match Sink::open() {
            Ok(sink) => Ok(McapLogger {
                sink,
                closed: false,
                registry: Registry::new(),
                ids_requested: 0,
                written: Ghost(Map::empty()),
            }),
            Err(e) => Err(LoggerError::Append(e)),
        }
    }

    /// Registers a channel for `topic` on the stream, with its schema first
    /// when it has one.
    fn register(&mut self, topic: &str, desc: &ChannelDescriptor) -> (r: Result<u16, mcap::McapError>)
        requires
            !sink_finished(old(self).sink),
            sink_ids_used(old(self).sink) <= old(self).ids_requested,
            old(self).ids_requested < ID_BUDGET,
            forall|i: int| 0 <= i < sink_channels(old(self).sink).len() ==> (#[trigger] sink_channels(old(self).sink)[i]).0 != topic@,
        ensures
            final(self).closed == old(self).closed,
            final(self).registry == old(self).registry,
            final(self).written == old(self).written,
            final(self).ids_requested <= old(self).ids_requested + 2,
            sink_ids_used(final(self).sink) <= final(self).ids_requested,
            !sink_finished(final(self).sink),
            sink_messages(final(self).sink) == sink_messages(old(self).sink),
            match r {
                Ok(id) => {
                    &&& sink_channels(final(self).sink) == sink_channels(old(self).sink).push((topic@, id))
                    &&& forall|i: int| 0 <= i < sink_channels(old(self).sink).len() ==> (#[trigger] sink_channels(old(self).sink)[i]).1 != id
                },
                Err(_) => sink_channels(final(self).sink) == sink_channels(old(self).sink),
            },
    {
        let schema_id: u16 = match &desc.schema {
            Some(schema) => {
                self.ids_requested = self.ids_requested + 1;
                match self.sink.add_schema(
                    schema.name.as_str(),
                    schema.encoding.as_str(),
                    schema.data.as_slice(),
                ) {
                    Ok(id) => id,
                    Err(e) => {
                        return Err(e);
                    },
                }
            },
            None => 0,
        };
        self.ids_requested = self.ids_requested + 1;
        self.sink.add_channel(schema_id, topic, desc.message_encoding.as_str(), &desc.metadata)
    }

    /// Whether the sequence counter of `t` is spent.
    pub open spec fn spent(&self, t: Seq<char>) -> bool {
        &&& self.topics().contains_key(t)
        &&& self.topics()[t].last is Some
        &&& self.topics()[t].last->Some_0.sequence == u32::MAX
    }

    /// Whether `t` would need a channel that the id budget has no room for.
    pub open spec fn out_of_ids(&self, t: Seq<char>) -> bool {
        !self.topics().contains_key(t) && self.spec_ids_requested() >= ID_BUDGET
    }

    /// Appends one message on `topic` at wall-clock time `now` (nanoseconds),
    /// given the outcome of encoding it. On the topic's first message its
    /// channel is registered, from `msg.channel()`; later messages reuse it.
    ///
    /// A closed logger refuses with `Closed`, a failed encoding comes back as
    /// `Serialization`, a topic whose counter is spent gives
    /// `SequenceExhausted`, and a new topic beyond the id budget gives
    /// `TooManyChannels`; these come on those inputs only, and change
    /// nothing. Otherwise only the stream can refuse: on success the payload
    /// is in the stream under the returned header, which is recorded as the
    /// topic's last.
    pub fn record<M: McapMessage>(
        &mut self,
        topic: &str,
        payload: Result<Vec<u8>, M::Error>,
        msg: &M,
        now: u64,
    ) -> (r: Result<MessageHeader, LoggerError<M::Error>>)
        requires
            old(self).wf(),
        ensures
            final(self).wf(),
            final(self).spec_closed() == old(self).spec_closed(),
            old(self).spec_closed() ==> r is Err && r->Err_0 is Closed,
            !old(self).spec_closed() && payload is Err ==> r is Err && r->Err_0 == LoggerError::<M::Error>::Serialization(payload->Err_0),
            !old(self).spec_closed() && payload is Ok && old(self).spent(topic@)
                ==> r is Err && r->Err_0 is SequenceExhausted,
            !old(self).spec_closed() && payload is Ok && old(self).out_of_ids(topic@)
                ==> r is Err && r->Err_0 is TooManyChannels,
            match r {
                Ok(h) => Self::appended(*old(self), *final(self), topic@, now, payload->Ok_0@, h),
                Err(LoggerError::Closed) => old(self).spec_closed() && Self::same_state(*old(self), *final(self)),
                Err(LoggerError::Serialization(_)) => {
                    &&& !old(self).spec_closed() && payload is Err
                    &&& Self::same_state(*old(self), *final(self))
                },
                Err(LoggerError::SequenceExhausted) => {
                    &&& !old(self).spec_closed() && payload is Ok && old(self).spent(topic@)
                    &&& Self::same_state(*old(self), *final(self))
                },
                Err(LoggerError::TooManyChannels) => {
                    &&& !old(self).spec_closed() && payload is Ok && old(self).out_of_ids(topic@)
                    &&& Self::same_state(*old(self), *final(self))
                },
                Err(LoggerError::ChannelRegistration(_)) => {
                    &&& !old(self).spec_closed() && payload is Ok && !old(self).topics().contains_key(topic@)
                    &&& Self::same_state(*old(self), *final(self))
                },
                Err(LoggerError::Append(_)) => {
                    &&& !old(self).spec_closed() && payload is Ok && !old(self).spent(topic@)
                    &&& Self::append_failed(*old(self), *final(self), topic@)
                },
                Err(LoggerError::Finalize(_)) => false,
            },
    {
        if self.closed {
            return Err(LoggerError::Closed);
        }
        let data = match payload {
            Ok(data) => data,
            Err(e) => {
                return Err(LoggerError::Serialization(e));
            },
        };
        let key = topic.to_owned();
        let ghost t = topic@;
        let header = match self.registry.get(&key) {
            Some(rec) => match rec.last {
                Some(prev) => match prev.next(now) {
                    Some(h) => h,
                    None => {
                        return Err(LoggerError::SequenceExhausted);
                    },
                },
                None => MessageHeader::first(rec.channel_id, now),
            },
            None => {
                if self.ids_requested >= ID_BUDGET {
                    return Err(LoggerError::TooManyChannels);
                }
                let desc = msg.channel();
                let ghost ch = sink_channels(self.sink);
                proof {
                    assert forall|i: int| 0 <= i < ch.len() implies (#[trigger] ch[i]).0 != t by {
                        assert(self.registry@.contains_key(ch[i].0));
                    }
                }
                let id = match self.register(topic, &desc) {
                    Ok(id) => id,
                    Err(e) => {
                        return Err(LoggerError::ChannelRegistration(e));
                    },
                };
                self.registry.set(key.clone(), TopicRecord { channel_id: id, last: None });
                proof {
                    self.written@ = self.written@.insert(t, Seq::empty());
                    let ch2 = sink_channels(self.sink);
                    let reg = self.registry@;
                    assert(ch2 == ch.push((t, id)));
                    assert forall|i: int, j: int|
                        0 <= i < j < ch2.len() implies (#[trigger] ch2[i]).0 != (#[trigger] ch2[j]).0 && ch2[i].1 != ch2[j].1 by {
                        if j == ch.len() {
                            assert(ch2[i] == ch[i]);
                        } else {
                            assert(ch2[i] == ch[i] && ch2[j] == ch[j]);
                        }
                    }
                    assert forall|i: int| 0 <= i < ch2.len() implies reg.contains_key((#[trigger] ch2[i]).0)
                        && reg[ch2[i].0].channel_id == ch2[i].1 by {
                        if i < ch.len() {
                            assert(ch2[i] == ch[i]);
                            assert(old(self).registry@.contains_key(ch[i].0));
                        }
                    }
                    assert forall|u: Seq<char>| #[trigger] reg.contains_key(u) implies exists|i: int|
                        0 <= i < ch2.len() && ch2[i].0 == u by {
                        if u == t {
                            assert(ch2[ch.len() as int].0 == u);
                        } else {
                            assert(old(self).registry@.contains_key(u));
                            let k = choose|k: int| 0 <= k < ch.len() && ch[k].0 == u;
                            assert(ch2[k] == ch[k]);
                        }
                    }
                    assert(Self::topic_ok(self.registry@[t], self.written@[t]));
                    assert(self.wf());
                }
                MessageHeader::first(id, now)
            },
        };
        proof {
            assert(self.written@.contains_key(t));
            let prior = self.written@[t];
            assert(Self::topic_ok(self.registry@[t], prior));
            if prior.len() > 0 {
                assert(prior[prior.len() - 1].channel_id == self.registry@[t].channel_id);
            }
            assert(header.channel_id == self.registry@[t].channel_id);
        }
        match self.sink.write_message(&header, data.as_slice()) {
            Ok(()) => {},
            Err(e) => {
                return Err(LoggerError::Append(e));
            },
        }
        let ghost prior = self.written@[t];
        let ghost reg_before = self.registry@;
        self.registry.set(key, TopicRecord { channel_id: header.channel_id, last: Some(header) });
        proof {
            self.written@ = self.written@.insert(t, prior.push(header));
            let h = prior.push(header);
            assert forall|i: int, j: int| 0 <= i <= j < h.len() implies
                (#[trigger] h[i]).log_time <= (#[trigger] h[j]).log_time
                && h[i].publish_time <= h[j].publish_time by {
                if j == h.len() - 1 && i < j {
                    assert(h[i] == prior[i]);
                    assert(prior[i].log_time <= prior[prior.len() - 1].log_time);
                }
            }
            let ch = sink_channels(self.sink);
            let reg = self.registry@;
            assert forall|i: int| 0 <= i < ch.len() implies reg.contains_key((#[trigger] ch[i]).0)
                && reg[ch[i].0].channel_id == ch[i].1 by {
                assert(reg_before.contains_key(ch[i].0));
            }
            assert forall|u: Seq<char>| #[trigger] reg.contains_key(u) implies exists|i: int|
                0 <= i < ch.len() && ch[i].0 == u by {
                assert(reg_before.contains_key(u));
            }
            assert(prior == old(self).history_of(t));
            assert(self.registry@ =~= old(self).registry@.insert(
                t,
                TopicRecord { channel_id: header.channel_id, last: Some(header) },
            ));
            assert(self.written@ =~= old(self).written@.insert(t, old(self).history_of(t).push(header)));
            assert(data@ == payload->Ok_0@);
        }
        Ok(header)
    }

    /// Records `msg` on its topic, stamped with the wall clock.
    ///
    /// Every event is appended whatever its `level`: filtering by severity is
    /// left to the caller. The payload is encoded before anything is written,
    /// so a failed encoding leaves the logger as it was; a closed logger asks
    /// nothing of `msg`.
    pub fn event<M: McapMessage>(&mut self, level: tracing::Level, msg: &M) -> (r: Result<
        MessageHeader,
        LoggerError<M::Error>,
    >)
        requires
            old(self).wf(),
        ensures
            final(self).wf(),
            final(self).spec_closed() == old(self).spec_closed(),
            old(self).spec_closed() ==> r is Err && r->Err_0 is Closed,
            match r {
                Ok(h) => exists|t: Seq<char>, now: u64, data: Seq<u8>|
                    Self::appended(*old(self), *final(self), t, now, data, h),
                Err(LoggerError::Closed) => old(self).spec_closed() && Self::same_state(*old(self), *final(self)),
                Err(LoggerError::Append(_)) => {
                    &&& !old(self).spec_closed()
                    &&& exists|t: Seq<char>| !old(self).spent(t) && Self::append_failed(*old(self), *final(self), t)
                },
                Err(LoggerError::SequenceExhausted) => {
                    &&& !old(self).spec_closed()
                    &&& exists|t: Seq<char>| old(self).spent(t)
                    &&& Self::same_state(*old(self), *final(self))
                },
                Err(LoggerError::TooManyChannels) => {
                    &&& !old(self).spec_closed() && old(self).spec_ids_requested() >= ID_BUDGET
                    &&& Self::same_state(*old(self), *final(self))
                },
                Err(LoggerError::Finalize(_)) => false,
                Err(_) => !old(self).spec_closed() && Self::same_state(*old(self), *final(self)),
            },
    {
        if self.closed {
            return Err(LoggerError::Closed);
        }
        let topic = msg.topic();
        let payload = msg.message();
        let now = now_nanos();
        let ghost p = payload;
        let r = self.record(topic, payload, msg, now);
        proof {
            if r is Ok {
                assert(Self::appended(*old(self), *self, topic@, now, p->Ok_0@, r->Ok_0));
            }
            if r is Err && r->Err_0 is Append {
                assert(!old(self).spent(topic@) && Self::append_failed(*old(self), *self, topic@));
            }
            if r is Err && r->Err_0 is SequenceExhausted {
                assert(old(self).spent(topic@));
            }
        }
        r
    }

    /// Finishes the stream: writes its summary and footer. The logger is
    /// closed afterwards even when this fails; closing twice gives `Closed`.
    pub fn close(&mut self) -> (r: Result<(), LoggerError<std::convert::Infallible>>)
        requires
            old(self).wf(),
        ensures
            final(self).wf(),
            final(self).spec_closed(),
            final(self).topics() == old(self).topics(),
            final(self).history() == old(self).history(),
            final(self).registrations() == old(self).registrations(),
            final(self).messages() == old(self).messages(),
            old(self).spec_closed() ==> r is Err && r->Err_0 is Closed,
            !old(self).spec_closed() ==> r is Ok || (r is Err && r->Err_0 is Finalize),
    {
        if self.closed {
            return Err(LoggerError::Closed);
        }
        self.closed = true;
        match self.sink.finish() {
            Ok(()) => Ok(()),
            Err(e) => Err(LoggerError::Finalize(e)),
        }
    }

    /// Consumes the logger and hands back the bytes of the MCAP stream.
    pub fn into_bytes(self) -> Vec<u8> {
        self.sink.into_bytes()
    }

    /// Whether the logger has been closed.
    pub fn is_closed(&self) -> (r: bool)
        ensures
            r == self.spec_closed(),
    {
        self.closed
    }

    /// The header of the last message appended on `topic`, if any.
    pub fn last_header(&self, topic: &str) -> (r: Option<MessageHeader>)
        requires
            self.wf(),
        ensures
            r == (if self.topics().contains_key(topic@) {
                self.topics()[topic@].last
            } else {
                None
            }),
    {
        match self.registry.get(&topic.to_owned()) {
            Some(rec) => rec.last,
            None => None,
        }
    }

    /// The id of the channel registered for `topic`, if any.
    pub fn channel_id(&self, topic: &str) -> (r: Option<u16>)
        requires
            self.wf(),
        ensures
            r == (if self.topics().contains_key(topic@) {
                Some(self.topics()[topic@].channel_id)
            } else {
                None
            }),
    {
        match self.registry.get(&topic.to_owned()) {
            Some(rec) => Some(rec.channel_id),
            None => None,
        }
    }
}

/// The wall clock in nanoseconds since the Unix epoch, saturated to `u64`
/// (0 for a clock set before the epoch).
fn now_nanos() -> u64 {
    match wall_clock_nanos() {
        Some(n) => if n > u64::MAX as u128 {
            u64::MAX
        } else {
            n as u64
        },
        None => 0,
    }
}

/// Sequence numbers count successful appends per topic: the headers recorded
/// on a topic are numbered 0, 1, 2, ... in order, the message just appended
/// on `t` is numbered by how many were appended on `t` before it, and an
/// append on another topic leaves `t`'s numbering alone.
pub proof fn lemma_sequence_counts_appends(
    pre: McapLogger,
    post: McapLogger,
    t: Seq<char>,
    now: u64,
    data: Seq<u8>,
    h: MessageHeader,
)
    requires
        pre.wf(),
        post.wf(),
        McapLogger::appended(pre, post, t, now, data, h),
    ensures
        h.sequence == pre.history_of(t).len(),
        post.history_of(t) == pre.history_of(t).push(h),
        forall|i: int| 0 <= i < post.history_of(t).len() ==> (#[trigger] post.history_of(t)[i]).sequence == i,
        forall|u: Seq<char>| u != t ==> #[trigger] post.history_of(u) == pre.history_of(u),
{
    let hist = pre.history_of(t);
    if pre.topics().contains_key(t) {
        assert(pre.written@.contains_key(t));
        assert(McapLogger::topic_ok(pre.registry@[t], hist));
        if hist.len() > 0 {
            assert(hist[hist.len() - 1].sequence == hist.len() - 1);
        }
    } else {
        assert(!pre.written@.contains_key(t));
    }
    assert(post.written@.contains_key(t));
    assert(McapLogger::topic_ok(post.registry@[t], post.written@[t]));
    assert forall|u: Seq<char>| u != t implies #[trigger] post.history_of(u) == pre.history_of(u) by {
        assert(post.history().contains_key(u) == pre.history().contains_key(u));
    }
}

/// A channel is registered at most once per topic: no topic occurs twice
/// among the stream's channels, their topics are exactly those of the
/// registry, distinct topics have distinct channel ids, and an append on a
/// topic that already has its channel registers nothing and writes under
/// that channel.
pub proof fn lemma_channel_registered_once(
    pre: McapLogger,
    post: McapLogger,
    t: Seq<char>,
    now: u64,
    data: Seq<u8>,
    h: MessageHeader,
)
    requires
        pre.wf(),
        post.wf(),
        McapLogger::appended(pre, post, t, now, data, h),
    ensures
        forall|i: int, j: int| 0 <= i < j < post.registrations().len() ==>
            (#[trigger] post.registrations()[i]).0 != (#[trigger] post.registrations()[j]).0,
        forall|i: int| 0 <= i < post.registrations().len() ==> post.topics().contains_key((#[trigger] post.registrations()[i]).0),
        forall|u: Seq<char>| #[trigger] post.topics().contains_key(u) ==>
            exists|i: int| 0 <= i < post.registrations().len() && post.registrations()[i].0 == u,
        forall|u: Seq<char>| #[trigger] post.topics().contains_key(u) && u != t ==>
            post.topics()[u].channel_id != h.channel_id,
        pre.topics().contains_key(t) ==> post.registrations() == pre.registrations(),
        pre.topics().contains_key(t) ==> h.channel_id == pre.topics()[t].channel_id,
{
    if pre.topics().contains_key(t) {
        assert(pre.written@.contains_key(t));
        let hist = pre.written@[t];
        assert(McapLogger::topic_ok(pre.registry@[t], hist));
        if hist.len() > 0 {
            assert(hist[hist.len() - 1].channel_id == pre.registry@[t].channel_id);
        }
    }
    let ch = post.registrations();
    assert forall|u: Seq<char>| #[trigger] post.topics().contains_key(u) && u != t implies
        post.topics()[u].channel_id != h.channel_id by {
        assert(post.registry@.contains_key(u) && post.registry@.contains_key(t));
        let i = choose|i: int| 0 <= i < ch.len() && ch[i].0 == u;
        let j = choose|j: int| 0 <= j < ch.len() && ch[j].0 == t;
        assert(post.registry@[ch[i].0].channel_id == ch[i].1);
        assert(post.registry@[ch[j].0].channel_id == ch[j].1);
        if i < j {
            assert(ch[i].1 != ch[j].1);
        } else {
            assert(ch[j].1 != ch[i].1);
        }
    }
}

/// Timestamps never go back on a topic: the log and publish times of the
/// headers recorded on it are non-decreasing, and a message appended on `t`
/// is stamped no earlier than the one before it.
pub proof fn lemma_timestamps_non_decreasing(
    pre: McapLogger,
    post: McapLogger,
    t: Seq<char>,
    now: u64,
    data: Seq<u8>,
    h: MessageHeader,
)
    requires
        pre.wf(),
        post.wf(),
        McapLogger::appended(pre, post, t, now, data, h),
    ensures
        pre.history_of(t).len() > 0 ==> pre.history_of(t).last().log_time <= h.log_time
            && pre.history_of(t).last().publish_time <= h.publish_time,
        forall|i: int, j: int| 0 <= i <= j < post.history_of(t).len() ==>
            (#[trigger] post.history_of(t)[i]).log_time <= (#[trigger] post.history_of(t)[j]).log_time
            && post.history_of(t)[i].publish_time <= post.history_of(t)[j].publish_time,
{
    assert(post.written@.contains_key(t));
    assert(McapLogger::topic_ok(post.registry@[t], post.written@[t]));
    let hist = pre.history_of(t);
    if hist.len() > 0 {
        assert(post.history_of(t) == hist.push(h));
        assert(post.history_of(t)[hist.len() - 1] == hist.last());
        assert(post.history_of(t)[hist.len() as int] == h);
    }
}

/// Appends on one topic that has no channel yet, however their callers were
/// interleaved: the logger is borrowed exclusively by each append, so they
/// take effect one after another, as the run `states` shows. The first of
/// them registers the topic's channel and no later one registers again,
/// and the `n`-th of them is numbered `n - 1`.
pub proof fn lemma_appends_on_fresh_topic(
    states: Seq<McapLogger>,
    t: Seq<char>,
    nows: Seq<u64>,
    datas: Seq<Seq<u8>>,
    hs: Seq<MessageHeader>,
)
    requires
        states.len() == hs.len() + 1,
        nows.len() == hs.len(),
        datas.len() == hs.len(),
        forall|k: int| 0 <= k < states.len() ==> (#[trigger] states[k]).wf(),
        forall|k: int|
            0 <= k < hs.len() ==> McapLogger::appended(states[k], states[k + 1], t, nows[k], datas[k], #[trigger] hs[k]),
        !states[0].topics().contains_key(t),
    ensures
        forall|k: int| 0 <= k < hs.len() ==> (#[trigger] hs[k]).sequence == k,
        hs.len() > 0 ==> states.last().registrations() == states[0].registrations().push((t, hs[0].channel_id)),
        states.last().history_of(t) == hs,
    decreases hs.len(),
{
    if hs.len() > 0 {
        let n = hs.len() - 1;
        let front = states.subrange(0, n + 1);
        assert forall|k: int| 0 <= k < n implies McapLogger::appended(front[k], front[k + 1], t, nows.subrange(0, n)[k], datas.subrange(0, n)[k], #[trigger] hs.subrange(0, n)[k]) by {
            assert(McapLogger::appended(states[k], states[k + 1], t, nows[k], datas[k], hs[k]));
        }
        assert forall|k: int| 0 <= k < front.len() implies (#[trigger] front[k]).wf() by {
            assert(states[k].wf());
        }
        lemma_appends_on_fresh_topic(front, t, nows.subrange(0, n), datas.subrange(0, n), hs.subrange(0, n));
        assert(states[n].wf() && states[n + 1].wf());
        assert(McapLogger::appended(states[n], states[n + 1], t, nows[n], datas[n], hs[n]));
        lemma_sequence_counts_appends(states[n], states[n + 1], t, nows[n], datas[n], hs[n]);
        assert(states.last() == states[n + 1]);
        assert(states[n].history_of(t) == hs.subrange(0, n));
        assert(hs.subrange(0, n).push(hs[n]) =~= hs);
        assert forall|k: int| 0 <= k < hs.len() implies (#[trigger] hs[k]).sequence == k by {
            if k < n {
                assert(hs.subrange(0, n)[k] == hs[k]);
            }
        }
        if n > 0 {
            assert(states[n].topics().contains_key(t)) by {
                assert(McapLogger::appended(states[n - 1], states[n], t, nows[n - 1], datas[n - 1], hs[n - 1]));
            }
        } else {
            assert(states[0].history_of(t) =~= Seq::<MessageHeader>::empty()) by {
                assert(!states[0].written@.contains_key(t));
            }
        }
    } else {
        assert(!states[0].written@.contains_key(t));
        assert(states.last() == states[0]);
        assert(states[0].history_of(t) =~= hs);
    }
}

} // verus!
