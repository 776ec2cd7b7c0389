//! The consumer's own copies of the stacks it has read, and the rule by
//! which a record's stack is resolved against them.
use vstd::prelude::*;
use std::collections::HashMap;

verus! {

broadcast use vstd::std_specs::hash::group_hash_axioms;

/// Copies of captured stacks, by stack identifier. Nothing ever leaves it.
pub struct StackCache {
    seen: HashMap<i32, Vec<u64>>,
}

/// What resolving one record's stack came to.
pub struct Resolution {
    /// The frames, innermost first; `None` where the stack is unknown.
    pub stack: Option<Vec<u64>>,
    /// Whether the live table's slot was read and is to be freed.
    pub release: bool,
}

/// The cache after a resolution: a stack read from the live table is filed
/// under its identifier, replacing an earlier copy; a miss changes nothing.
pub open spec fn cache_after(
    cache: Map<i32, Seq<u64>>,
    stack_id: i32,
    live: Option<Seq<u64>>,
) -> Map<i32, Seq<u64>> {
    match live {
        Some(frames) => cache.insert(stack_id, frames),
        None => cache,
    }
}

/// The stack a resolution reports: the live table's where it has one, else
/// the cached copy, else none.
pub open spec fn resolved_stack(
    cache: Map<i32, Seq<u64>>,
    stack_id: i32,
    live: Option<Seq<u64>>,
) -> Option<Seq<u64>> {
    match live {
        Some(frames) => Some(frames),
        None => if cache.contains_key(stack_id) {
            Some(cache[stack_id])
        } else {
            None
        },
    }
}

/// The frames of an optional stack.
pub open spec fn frames_of(stack: Option<Vec<u64>>) -> Option<Seq<u64>> {
    match stack {
        Some(v) => Some(v@),
        None => None,
    }
}

impl View for StackCache {
    type V = Map<i32, Seq<u64>>;

    /// The frames cached under each identifier.
    closed spec fn view(&self) -> Map<i32, Seq<u64>> {
        Map::new(|id: i32| self.seen@.contains_key(id), |id: i32| self.seen@[id]@)
    }
}

impl StackCache {
    /// An empty cache.
    pub fn new() -> (c: StackCache)
        ensures
            c@ == Map::<i32, Seq<u64>>::empty(),
    {
        let c = StackCache { seen: HashMap::with_capacity(1024) };
        assert(c@ =~= Map::<i32, Seq<u64>>::empty());
        c
    }

    /// Whether a stack is cached under `stack_id`.
    pub fn contains(&self, stack_id: i32) -> (r: bool)
        ensures
            r == self@.contains_key(stack_id),
    {
        self.seen.contains_key(&stack_id)
    }

    /// A copy of the stack cached under `stack_id`, if there is one.
    pub fn get(&self, stack_id: i32) -> (r: Option<Vec<u64>>)
        ensures
            frames_of(r) == resolved_stack(self@, stack_id, None),
    {
        match self.seen.get(&stack_id) {
            Some(frames) => {
                let copy = frames.clone();
                assert(copy@ =~= frames@);
                Some(copy)
            },
            None => None,
        }
    }

    /// Files `frames` under `stack_id`, replacing an earlier copy.
    pub fn insert(&mut self, stack_id: i32, frames: Vec<u64>)
        ensures
            final(self)@ == old(self)@.insert(stack_id, frames@),
    {
        self.seen.insert(stack_id, frames);
        assert(final(self)@ =~= old(self)@.insert(stack_id, frames@));
    }

    /// Resolves the stack of a record, given what reading `stack_id` from
    /// the live table returned. A stack that was read is cached and its
    /// slot is to be freed; after a miss the cache answers, if it can.
    pub fn resolve(&mut self, stack_id: i32, live: Option<Vec<u64>>) -> (r: Resolution)
        ensures
            final(self)@ == cache_after(old(self)@, stack_id, frames_of(live)),
            frames_of(r.stack) == resolved_stack(old(self)@, stack_id, frames_of(live)),
            r.release == live.is_some(),
    {
        match live {
            Some(frames) => {
                let copy = frames.clone();
                assert(copy@ =~= frames@);
                self.insert(stack_id, copy);
                Resolution { stack: Some(frames), release: true }
            },
            None => Resolution { stack: self.get(stack_id), release: false },
        }
    }
}

/// Resolving the same identifier twice gives the same frames both times,
/// whether the second read finds the live slot unchanged or already gone.
pub proof fn lemma_resolve_idempotent(
    cache: Map<i32, Seq<u64>>,
    stack_id: i32,
    live: Option<Seq<u64>>,
    again: Option<Seq<u64>>,
)
    requires
        again == live || again.is_none(),
        live.is_some() || cache.contains_key(stack_id),
    ensures
        resolved_stack(cache_after(cache, stack_id, live), stack_id, again) == resolved_stack(
            cache,
            stack_id,
            live,
        ),
        cache_after(cache_after(cache, stack_id, live), stack_id, again) == cache_after(
            cache,
            stack_id,
            live,
        ),
{
    assert(cache_after(cache_after(cache, stack_id, live), stack_id, again) =~= cache_after(
        cache,
        stack_id,
        live,
    ));
}

/// Once an identifier has been read from the live table, it resolves to the
/// frames read then, however the live table loses it afterwards; resolving
/// other identifiers in between does not disturb it.
pub proof fn lemma_cached_survives_eviction(
    cache: Map<i32, Seq<u64>>,
    stack_id: i32,
    frames: Seq<u64>,
    other_id: i32,
    other_live: Option<Seq<u64>>,
)
    requires
        other_id != stack_id,
    ensures
        resolved_stack(cache_after(cache, stack_id, Some(frames)), stack_id, None) == Some(frames),
        resolved_stack(
            cache_after(cache_after(cache, stack_id, Some(frames)), other_id, other_live),
            stack_id,
            None,
        ) == Some(frames),
{
}

/// An identifier that was never read while live, and is gone from the live
/// table, resolves to no stack, and stays unknown.
pub proof fn lemma_unread_is_unknown(cache: Map<i32, Seq<u64>>, stack_id: i32)
    requires
        !cache.contains_key(stack_id),
    ensures
        resolved_stack(cache, stack_id, None) == None::<Seq<u64>>,
        cache_after(cache, stack_id, None) == cache,
{
}

} // verus!
