//! Logical channel identifiers: their lifecycle and allocation.

use vstd::prelude::*;
use std::collections::HashMap;
use crate::packet::BROADCAST_CHANNEL;

verus! {

/// A channel bound to an active CTAP session.
pub struct InUse;

/// A channel identifier not yet bound to a session.
pub struct Free;

/// The lifecycle states a channel can be in.
pub trait ChannelState {

}

impl ChannelState for InUse {

}

impl ChannelState for Free {

}

/// A logical channel identifier together with its lifecycle state.
pub struct Channel<S: ChannelState> {
    channel_id: u32,
    state: S,
}

impl<S: ChannelState> Channel<S> {
    /// The identifier this channel was minted with.
    pub closed spec fn id(&self) -> u32 {
        self.channel_id
    }

    /// Reads the identifier.
    pub fn channel_id(&self) -> (r: u32)
        ensures
            r == self.id(),
    {
        self.channel_id
    }
}

impl Channel<Free> {
    /// Mints a channel in the unallocated state.
    pub fn new(channel_id: u32) -> (c: Self)
        ensures
            c.id() == channel_id,
    {
        Self { channel_id, state: Free }
    }

    /// Binds the channel to a session, consuming the free-state witness.
    pub fn flip(self) -> (c: Channel<InUse>)
        ensures
            c.id() == self.id(),
    {
        Channel::<InUse> { channel_id: self.channel_id, state: InUse {  } }
    }
}

/// Search bound that covers the whole identifier space once.
pub const ALLOC_SEARCH_BOUND: u64 = 0x1_0000_0000;

/// The counter value following `c`, wrapping around the 32-bit space.
pub open spec fn wrap_inc(c: u32) -> u32 {
    if c == 0xFFFF_FFFF {
        0
    } else {
        (c + 1) as u32
    }
}

/// Whether `c` may be handed out while `active` is the set of identifiers
/// already in use: the zero and broadcast identifiers are reserved.
pub open spec fn allocatable(active: Set<u32>, c: u32) -> bool {
    c != 0 && c != BROADCAST_CHANNEL && !active.contains(c)
}

/// The first identifier reachable from `c` (inclusive), advancing with
/// wraparound at most `fuel` times, that may be handed out.
pub open spec fn first_free(active: Set<u32>, c: u32, fuel: nat) -> Option<u32>
    decreases fuel,
{
    if fuel == 0 {
        None
    } else if allocatable(active, c) {
        Some(c)
    } else {
        first_free(active, wrap_inc(c), (fuel - 1) as nat)
    }
}

/// How many wrapping increments lead from `c` to `id`.
pub open spec fn wrap_dist(c: u32, id: u32) -> nat {
    if id >= c {
        (id - c) as nat
    } else {
        (0x1_0000_0000 - c + id) as nat
    }
}

/// A search that still has more fuel than the distance to some allocatable
/// identifier succeeds.
proof fn lemma_first_free_finds(active: Set<u32>, c: u32, id: u32, fuel: nat)
    requires
        allocatable(active, id),
        fuel > wrap_dist(c, id),
    ensures
        first_free(active, c, fuel) is Some,
    decreases wrap_dist(c, id),
{
    if !allocatable(active, c) {
        assert(c != id);
        assert(wrap_dist(wrap_inc(c), id) == wrap_dist(c, id) - 1);
        lemma_first_free_finds(active, wrap_inc(c), id, (fuel - 1) as nat);
    }
}

/// Exhaustion is genuine: a whole-space search comes back empty only when
/// every identifier other than the two reserved ones is occupied.
pub proof fn lemma_exhaustion_means_full(active: Set<u32>, c: u32, id: u32)
    requires
        first_free(active, c, ALLOC_SEARCH_BOUND as nat) is None,
        id != 0,
        id != BROADCAST_CHANNEL,
    ensures
        active.contains(id),
{
    if !active.contains(id) {
        assert(wrap_dist(c, id) < ALLOC_SEARCH_BOUND);
        lemma_first_free_finds(active, c, id, ALLOC_SEARCH_BOUND as nat);
        assert(false);
    }
}

/// A found identifier is neither reserved nor already active.
pub proof fn lemma_first_free_allocatable(active: Set<u32>, c: u32, fuel: nat)
    ensures
        first_free(active, c, fuel) matches Some(id) ==> allocatable(active, id),
    decreases fuel,
{
    if fuel > 0 && !allocatable(active, c) {
        lemma_first_free_allocatable(active, wrap_inc(c), (fuel - 1) as nat);
    }
}

/// Owns the set of allocated channel identifiers and the counter used to
/// mint new ones.  An identifier is present exactly while its channel is
/// bound to a session; reserved identifiers are never present.
pub struct ChannelRegistry {
    active: HashMap<u32, Channel<InUse>>,
    counter: u32,
}

/// Allocation failed because every identifier is occupied.
pub enum AllocError {
    Exhausted,
}

impl ChannelRegistry {
    /// The set of identifiers currently bound to sessions.
    pub closed spec fn active_set(&self) -> Set<u32> {
        self.active@.dom()
    }

    /// The counter the next allocation search starts from.
    pub closed spec fn counter_spec(&self) -> u32 {
        self.counter
    }

    /// Reserved identifiers are never allocated, and every entry is keyed
    /// by its own channel's identifier.
    pub closed spec fn inv(&self) -> bool {
        forall|c: u32|
            #[trigger] self.active@.dom().contains(c) ==> c != 0 && c != BROADCAST_CHANNEL
                && self.active@[c].id() == c
    }

    /// A fresh registry has no allocated channels.
    pub fn new() -> (r: Self)
        ensures
            r.active_set() == Set::<u32>::empty(),
            r.counter_spec() == 0,
            r.inv(),
    {
        let r = ChannelRegistry { active: HashMap::new(), counter: 0 };
        proof {
            assert(r.active@.dom() =~= Set::<u32>::empty());
        }
        r
    }

    /// Whether `id` is bound to an active session.
    pub fn is_active(&self, id: u32) -> (b: bool)
        ensures
            b == self.active_set().contains(id),
    {
        self.active.contains_key(&id)
    }

    /// How many channels are bound to sessions.
    pub fn active_count(&self) -> (n: usize)
        ensures
            n == self.active_set().len(),
    {
        self.active.len()
    }

    /// Draws the next identifier from the counter, skipping the two
    /// reserved values and every identifier already in use, binds it to a
    /// fresh session and returns it.  Fails only when a whole pass over the
    /// identifier space finds every value occupied.
    pub fn allocate(&mut self) -> (r: Result<u32, AllocError>)
        requires
            old(self).inv(),
        ensures
            final(self).inv(),
            match r {
                Ok(id) => {
                    &&& first_free(
                        old(self).active_set(),
                        old(self).counter_spec(),
                        ALLOC_SEARCH_BOUND as nat,
                    ) == Some(id)
                    &&& allocatable(old(self).active_set(), id)
                    &&& final(self).active_set() == old(self).active_set().insert(id)
                    &&& final(self).counter_spec() == id
                },
                Err(_) => {
                    &&& first_free(
                        old(self).active_set(),
                        old(self).counter_spec(),
                        ALLOC_SEARCH_BOUND as nat,
                    ) is None
                    &&& final(self).active_set() == old(self).active_set()
                    &&& final(self).counter_spec() == old(self).counter_spec()
                },
            },
    {
        let ghost a = self.active@.dom();
        let ghost c0 = self.counter;
        let mut c = self.counter;
        let mut tries: u64 = 0;
        while tries < ALLOC_SEARCH_BOUND && (c == 0 || c == BROADCAST_CHANNEL
            || self.active.contains_key(&c))
            invariant
                self == old(self),
                a == self.active@.dom(),
                tries <= ALLOC_SEARCH_BOUND,
                first_free(a, c0, ALLOC_SEARCH_BOUND as nat) == first_free(
                    a,
                    c,
                    (ALLOC_SEARCH_BOUND - tries) as nat,
                ),
            decreases ALLOC_SEARCH_BOUND - tries,
        {
            c = if c == 0xFFFF_FFFF {
                0
            } else {
                c + 1
            };
            tries = tries + 1;
        }
        if tries == ALLOC_SEARCH_BOUND {
            return Err(AllocError::Exhausted);
        }
        assert(allocatable(a, c));
        assert(first_free(a, c0, ALLOC_SEARCH_BOUND as nat) == Some(c));
        let session = Channel::new(c).flip();
        self.active.insert(c, session);
        self.counter = c;
        proof {
            assert(self.active@.dom() =~= old(self).active_set().insert(c));
            assert forall|k: u32| #[trigger] self.active@.dom().contains(k) implies k != 0 && k
                != BROADCAST_CHANNEL && self.active@[k].id() == k by {
                if k != c {
                    assert(old(self).active@.dom().contains(k));
                    assert(self.active@[k] == old(self).active@[k]);
                }
            }
        }
        Ok(c)
    }

    /// Re-initializes an already bound channel's session context without
    /// changing its identifier or removing the binding; reports whether the
    /// identifier was bound at all.
    pub fn reset(&mut self, id: u32) -> (r: bool)
        requires
            old(self).inv(),
        ensures
            final(self).inv(),
            final(self).active_set() == old(self).active_set(),
            final(self).counter_spec() == old(self).counter_spec(),
            r == old(self).active_set().contains(id),
    {
        let bound = self.active.contains_key(&id);
        if bound {
            let session = Channel::new(id).flip();
            self.active.insert(id, session);
            proof {
                assert(self.active@.dom() =~= old(self).active_set());
                assert forall|k: u32| #[trigger] self.active@.dom().contains(k) implies k != 0
                    && k != BROADCAST_CHANNEL && self.active@[k].id() == k by {
                    if k != id {
                        assert(old(self).active@.dom().contains(k));
                        assert(self.active@[k] == old(self).active@[k]);
                    }
                }
            }
        }
        bound
    }
}

/// Allocation uniqueness: across any run of successful allocations, where
/// each step hands out an identifier that is fresh for the set of live
/// identifiers at that step and adds it to the set, all identifiers handed
/// out are pairwise distinct, and none is the zero or broadcast identifier.
pub proof fn lemma_allocation_uniqueness(sets: Seq<Set<u32>>, ids: Seq<u32>)
    requires
        sets.len() == ids.len() + 1,
        forall|i: int|
            0 <= i < ids.len() ==> allocatable(sets[i], #[trigger] ids[i]) && sets[i + 1]
                == sets[i].insert(ids[i]),
    ensures
        forall|i: int, j: int| 0 <= i < j < ids.len() ==> ids[i] != ids[j],
        forall|i: int|
            0 <= i < ids.len() ==> #[trigger] ids[i] != 0 && ids[i] != BROADCAST_CHANNEL,
{
    assert forall|i: int, j: int| 0 <= i < j < ids.len() implies ids[i] != ids[j] by {
        lemma_allocated_persists(sets, ids, i, j);
        assert(sets[j].contains(ids[i]));
        assert(!sets[j].contains(ids[j]));
    }
}

/// Once handed out at step `i`, an identifier is in every later live set.
proof fn lemma_allocated_persists(sets: Seq<Set<u32>>, ids: Seq<u32>, i: int, j: int)
    requires
        sets.len() == ids.len() + 1,
        forall|k: int|
            0 <= k < ids.len() ==> allocatable(sets[k], #[trigger] ids[k]) && sets[k + 1]
                == sets[k].insert(ids[k]),
        0 <= i < j <= ids.len(),
    ensures
        sets[j].contains(ids[i]),
    decreases j - i,
{
    if j == i + 1 {
        assert(sets[j] == sets[i].insert(ids[i]));
    } else {
        lemma_allocated_persists(sets, ids, i, j - 1);
        assert(sets[j] == sets[j - 1].insert(ids[j - 1]));
    }
}

} // verus!
