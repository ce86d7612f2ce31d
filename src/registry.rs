use crate::header::MessageHeader;
use vstd::prelude::*;

verus! {

/// What the logger knows about one topic: the channel it was registered as,
/// and the header of the last message appended on it, if any.
#[derive(Clone, Copy, Debug, PartialEq, Eq, Structural)]
pub struct TopicRecord {
    pub channel_id: u16,
    pub last: Option<MessageHeader>,
}

/// Topic-keyed table of `TopicRecord`s. Each topic appears at most once.
pub struct Registry {
    entries: Vec<(String, TopicRecord)>,
    model: Ghost<Map<Seq<char>, TopicRecord>>,
}

impl Registry {
    /// The table as a map from topic name to its record.
    pub closed spec fn view(&self) -> Map<Seq<char>, TopicRecord> {
        self.model@
    }

    pub closed spec fn wf(&self) -> bool {
        &&& forall|i: int, j: int|
            0 <= i < j < self.entries@.len() ==> self.entries@[i].0@ != self.entries@[j].0@
        &&& forall|i: int|
            0 <= i < self.entries@.len() ==> {
                &&& #[trigger] self.model@.contains_key(self.entries@[i].0@)
                &&& self.model@[self.entries@[i].0@] == self.entries@[i].1
            }
        &&& forall|t: Seq<char>|
            #[trigger] self.model@.contains_key(t) ==> exists|i: int|
                0 <= i < self.entries@.len() && self.entries@[i].0@ == t
    }

    pub fn new() -> (r: Registry)
        ensures
            r.wf(),
            r@ == Map::<Seq<char>, TopicRecord>::empty(),
    {
        Registry { entries: Vec::new(), model: Ghost(Map::empty()) }
    }

    fn find(&self, topic: &String) -> (r: Option<usize>)
        requires
            self.wf(),
        ensures
            match r {
                Some(i) => i < self.entries@.len() && self.entries@[i as int].0@ == topic@,
                None => !self@.contains_key(topic@),
            },
    {
        let mut i: usize = 0;
        while i < self.entries.len()
            invariant
                self.wf(),
                i <= self.entries@.len(),
                forall|k: int| 0 <= k < i ==> self.entries@[k].0@ != topic@,
            decreases self.entries@.len() - i,
        {
            if self.entries[i].0 == *topic {
                return Some(i);
            }
            i = i + 1;
        }
        None
    }

    /// The record of `topic`, if the topic is in the table.
    pub fn get(&self, topic: &String) -> (r: Option<TopicRecord>)
        requires
            self.wf(),
        ensures
            r == (if self@.contains_key(topic@) {
                Some(self@[topic@])
            } else {
                None
            }),
    {
        match self.find(topic) {
            Some(i) => Some(self.entries[i].1),
            None => None,
        }
    }

    /// Stores `rec` as the record of `topic`, adding the topic if it is new.
    pub fn set(&mut self, topic: String, rec: TopicRecord)
        requires
            old(self).wf(),
        ensures
            final(self).wf(),
            final(self)@ == old(self)@.insert(topic@, rec),
    {
        let ghost t = topic@;
        let ghost mut at: int = old(self).entries@.len() as int;
        match self.find(&topic) {
            Some(i) => {
                self.entries.set(i, (topic, rec));
                proof {
                    at = i as int;
                }
            },
            None => {
                self.entries.push((topic, rec));
            },
        }
        self.model = Ghost(self.model@.insert(t, rec));
        proof {
            assert forall|k: Seq<char>| #[trigger] self.model@.contains_key(k) implies exists|i: int|
                0 <= i < self.entries@.len() && self.entries@[i].0@ == k by {
                if k != t {
                    let j = choose|j: int| 0 <= j < old(self).entries@.len() && old(self).entries@[j].0@ == k;
                    assert(self.entries@[j].0@ == k);
                } else {
                    assert(self.entries@[at].0@ == k);
                }
            }
        }
    }
}

} // verus!
