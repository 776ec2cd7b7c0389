//! The bounded table through which an entry and its return find each other.
use vstd::prelude::*;
use std::collections::HashMap;
use vstd::relations::injective_on;
use vstd::set_lib::lemma_map_size;
use crate::event::{kind_code, kind_of_code, MemEvent, Type};

verus! {

broadcast use vstd::std_specs::hash::group_hash_axioms;

/// What a pending call is filed under: its kind and its thread.
#[derive(Clone, Copy, Debug, PartialEq, Eq, Structural)]
pub struct Key {
    pub ty: Type,
    pub tid: u32,
}

/// The single word a key is stored under: the kind's number in the high
/// half, the thread in the low half.
pub open spec fn key_word(k: Key) -> u64 {
    (kind_code(k.ty) * 0x1_0000_0000 + k.tid) as u64
}

/// The key that a word stands for.
pub open spec fn key_at(word: u64) -> Key {
    Key {
        ty: match kind_of_code((word / 0x1_0000_0000) as u32) {
            Some(ty) => ty,
            None => Type::Malloc,
        },
        tid: (word % 0x1_0000_0000) as u32,
    }
}

/// Two keys share a word only if they are the same key.
pub proof fn lemma_key_word_injective(a: Key, b: Key)
    ensures
        key_word(a) == key_word(b) <==> a == b,
        key_at(key_word(a)) == a,
{
}

/// A key→record table that holds at most `capacity` pending calls.
pub struct CorrelationTable {
    slots: HashMap<u64, MemEvent>,
    limit: usize,
}

impl View for CorrelationTable {
    type V = Map<Key, MemEvent>;

    /// The pending record of each key that has one.
    closed spec fn view(&self) -> Map<Key, MemEvent> {
        Map::new(
            |k: Key| self.slots@.contains_key(key_word(k)),
            |k: Key| self.slots@[key_word(k)],
        )
    }
}

impl CorrelationTable {
    /// The most pending calls the table holds at once.
    pub closed spec fn capacity(&self) -> nat {
        self.limit as nat
    }

    /// How many calls are pending.
    pub open spec fn pending(&self) -> nat {
        self@.dom().len()
    }

    /// The table never holds more than its capacity.
    pub closed spec fn wf(&self) -> bool {
        &&& self.slots@.len() <= self.limit
        &&& forall|w: u64| #[trigger] self.slots@.contains_key(w) ==> key_word(key_at(w)) == w
    }

    /// The pending calls are finitely many, and never more than the capacity.
    pub proof fn lemma_pending_bounded(&self)
        requires
            self.wf(),
        ensures
            self@.dom().finite(),
            self.pending() <= self.capacity(),
    {
        self.lemma_count();
    }

    proof fn lemma_count(&self)
        requires
            forall|w: u64| #[trigger] self.slots@.contains_key(w) ==> key_word(key_at(w)) == w,
        ensures
            self@.dom().finite(),
            self@.dom().len() == self.slots@.len(),
    {
        let words = self.slots@.dom();
        let keys = self@.dom();
        let f = |w: u64| key_at(w);
        assert(injective_on(f, words)) by {
            assert forall|a: u64, b: u64|
                words.contains(a) && words.contains(b) && #[trigger] f(a) == #[trigger] f(b) implies a
                == b by {
                assert(self.slots@.contains_key(a));
                assert(self.slots@.contains_key(b));
            }
        }
        assert(words.map(f) =~= keys) by {
            assert forall|k: Key| words.map(f).contains(k) implies keys.contains(k) by {
                let w = choose|w: u64| words.contains(w) && f(w) == k;
                assert(self.slots@.contains_key(w));
            }
            assert forall|k: Key| keys.contains(k) implies words.map(f).contains(k) by {
                lemma_key_word_injective(k, k);
                assert(words.contains(key_word(k)) && f(key_word(k)) == k);
            }
        }
        lemma_map_size(words, keys, f);
    }

    /// An empty table for up to `capacity` pending calls.
    pub fn new(capacity: usize) -> (t: CorrelationTable)
        ensures
            t.wf(),
            t@ == Map::<Key, MemEvent>::empty(),
            t.capacity() == capacity,
            t.pending() == 0,
    {
        let t = CorrelationTable { slots: HashMap::new(), limit: capacity };
        assert(t@ =~= Map::<Key, MemEvent>::empty());
        proof {
            t.lemma_count();
        }
        t
    }

    fn word(key: Key) -> (w: u64)
        ensures
            w == key_word(key),
    {
        let high: u64 = key.ty.code() as u64;
        high * 0x1_0000_0000 + key.tid as u64
    }

    /// Number of pending calls.
    pub fn len(&self) -> (n: usize)
        requires
            self.wf(),
        ensures
            n == self.pending(),
            n <= self.capacity(),
    {
        proof {
            self.lemma_count();
        }
        self.slots.len()
    }

    /// Whether a call is pending under `key`.
    pub fn contains(&self, key: Key) -> (r: bool)
        ensures
            r == self@.contains_key(key),
    {
        let w: u64 = Self::word(key);
        self.slots.contains_key(&w)
    }

    /// Files `pending` under `key`. A record already there is overwritten.
    /// A new key is taken only while fewer than `capacity` calls are pending;
    /// otherwise the table is left as it was and `false` is returned.
    pub fn put(&mut self, key: Key, pending: MemEvent) -> (stored: bool)
        requires
            old(self).wf(),
        ensures
            final(self).wf(),
            final(self).capacity() == old(self).capacity(),
            stored == (old(self)@.contains_key(key) || old(self).pending() < old(self).capacity()),
            stored ==> final(self)@ == old(self)@.insert(key, pending),
            !stored ==> *final(self) == *old(self),
            final(self).pending() == if stored && !old(self)@.contains_key(key) {
                old(self).pending() + 1
            } else {
                old(self).pending()
            },
    {
        let w: u64 = Self::word(key);
        proof {
            self.lemma_count();
        }
        if !self.slots.contains_key(&w) && self.slots.len() >= self.limit {
            return false;
        }
        self.slots.insert(w, pending);
        proof {
            self.lemma_count();
            assert forall|k: Key| key_word(k) == w implies k == key by {
                lemma_key_word_injective(k, key);
            }
            lemma_key_word_injective(key, key);
            assert(final(self)@ =~= old(self)@.insert(key, pending));
        }
        true
    }

    /// Looks up and removes the record pending under `key` in one step.
    pub fn take(&mut self, key: Key) -> (r: Option<MemEvent>)
        requires
            old(self).wf(),
        ensures
            final(self).wf(),
            final(self).capacity() == old(self).capacity(),
            r == if old(self)@.contains_key(key) {
                Some(old(self)@[key])
            } else {
                None
            },
            final(self)@ == old(self)@.remove(key),
            final(self).pending() == if old(self)@.contains_key(key) {
                old(self).pending() - 1
            } else {
                old(self).pending() as int
            },
    {
        let w: u64 = Self::word(key);
        proof {
            self.lemma_count();
        }
        let r = self.slots.remove(&w);
        proof {
            self.lemma_count();
            assert forall|k: Key| key_word(k) == w implies k == key by {
                lemma_key_word_injective(k, key);
            }
            assert(final(self)@ =~= old(self)@.remove(key));
        }
        r
    }
}

} // verus!
