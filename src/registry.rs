//! The connection registry: which remote address holds which small player id.
use vstd::prelude::*;

verus! {

/// Number of player ids there are.
pub const ID_COUNT: usize = 256;

/// The network address of a remote endpoint: an IPv6 address (IPv4 ones in
/// their mapped form) and a port.
#[derive(Debug, Clone, Copy, PartialEq, Eq, Structural, Hash)]
pub struct Address {
    pub ip: u128,
    pub port: u16,
}

/// Number of slots of `s` that hold an address.
pub open spec fn count_some(s: Seq<Option<Address>>) -> nat
    decreases s.len(),
{
    if s.len() == 0 {
        0
    } else {
        count_some(s.drop_last()) + if s.last() is Some {
            1nat
        } else {
            0nat
        }
    }
}

/// Whether slot `i` of `s` holds address `a`.
pub open spec fn holds_at(s: Seq<Option<Address>>, i: int, a: Address) -> bool {
    0 <= i < s.len() && s[i] == Some(a)
}

/// The lowest free slot of `s` is `i`.
pub open spec fn lowest_free(s: Seq<Option<Address>>, i: int) -> bool {
    0 <= i < s.len() && s[i] is None && forall|j: int| 0 <= j < i ==> #[trigger] s[j] is Some
}

/// What a registry holds: slot `i` holds the address that player id `i`
/// belongs to, and at most `capacity` slots are taken.
pub struct RegistryView {
    pub slots: Seq<Option<Address>>,
    pub capacity: u8,
}

/// Maps remote addresses to small player ids, at most `capacity` of them.
/// New addresses get the lowest free id.
#[derive(Debug)]
pub struct Registry {
    slots: Vec<Option<Address>>,
    count: usize,
    capacity: u8,
}

proof fn lemma_count_update(s: Seq<Option<Address>>, i: int, v: Option<Address>)
    requires
        0 <= i < s.len(),
    ensures
        count_some(s.update(i, v)) + (if s[i] is Some {
            1int
        } else {
            0int
        }) == count_some(s) + (if v is Some {
            1int
        } else {
            0int
        }),
    decreases s.len(),
{
    let t = s.update(i, v);
    if i < s.len() - 1 {
        assert(t.drop_last() =~= s.drop_last().update(i, v));
        lemma_count_update(s.drop_last(), i, v);
    } else {
        assert(t.drop_last() =~= s.drop_last());
    }
}

proof fn lemma_count_bounded(s: Seq<Option<Address>>)
    ensures
        count_some(s) <= s.len(),
        (forall|j: int| 0 <= j < s.len() ==> #[trigger] s[j] is Some) ==> count_some(s) == s.len(),
    decreases s.len(),
{
    if s.len() > 0 {
        lemma_count_bounded(s.drop_last());
        if forall|j: int| 0 <= j < s.len() ==> #[trigger] s[j] is Some {
            assert forall|j: int| 0 <= j < s.drop_last().len() implies #[trigger] s.drop_last()[j] is Some by {
                assert(s[j] is Some);
            }
        }
    }
}

impl View for Registry {
    type V = RegistryView;

    closed spec fn view(&self) -> RegistryView {
        RegistryView { slots: self.slots@, capacity: self.capacity }
    }
}

impl Registry {
    /// Slots, count and capacity agree, and no address holds two slots.
    pub closed spec fn wf(&self) -> bool {
        &&& self.slots@.len() == ID_COUNT
        &&& self.count == count_some(self.slots@)
        &&& self.count <= self.capacity
        &&& forall|i: int, j: int, a: Address|
            holds_at(self.slots@, i, a) && holds_at(self.slots@, j, a) ==> i == j
    }

    /// No address holds two player ids, every slot lies within the id range,
    /// and at most `capacity` are taken.
    pub proof fn lemma_wf(&self)
        requires
            self.wf(),
        ensures
            self@.slots.len() == ID_COUNT,
            count_some(self@.slots) <= self@.capacity,
            forall|i: int, j: int, a: Address|
                holds_at(self@.slots, i, a) && holds_at(self@.slots, j, a) ==> i == j,
    {
    }

    /// Number of addresses registered.
    pub open spec fn len_spec(&self) -> nat {
        count_some(self@.slots)
    }

    /// An empty registry that takes at most `capacity` addresses.
    pub fn new(capacity: u8) -> (r: Registry)
        ensures
            r.wf(),
            r@.capacity == capacity,
            r@.slots.len() == ID_COUNT,
            forall|i: int| 0 <= i < ID_COUNT ==> #[trigger] r@.slots[i] is None,
    {
        let mut slots: Vec<Option<Address>> = Vec::new();
        let mut i: usize = 0;
        while i < ID_COUNT
            invariant
                i <= ID_COUNT,
                slots@.len() == i,
                forall|j: int| 0 <= j < i ==> #[trigger] slots@[j] is None,
                count_some(slots@) == 0,
            decreases ID_COUNT - i,
        {
            let ghost before = slots@;
            slots.push(None);
            assert(slots@.drop_last() =~= before);
            i = i + 1;
        }
        Registry { slots, count: 0, capacity }
    }

    /// The most addresses the registry takes.
    pub fn capacity(&self) -> (r: u8)
        ensures
            r == self@.capacity,
    {
        self.capacity
    }

    /// Number of addresses registered.
    pub fn len(&self) -> (r: usize)
        requires
            self.wf(),
        ensures
            r == self.len_spec(),
    {
        self.count
    }

    /// The player id of `address`, if it is registered.
    pub fn lookup(&self, address: &Address) -> (r: Option<u8>)
        requires
            self.wf(),
        ensures
            r matches Some(id) ==> holds_at(self@.slots, id as int, *address),
            r is None ==> forall|i: int| !holds_at(self@.slots, i, *address),
    {
        let mut i: usize = 0;
        while i < ID_COUNT
            invariant
                self.wf(),
                i <= ID_COUNT,
                forall|j: int| 0 <= j < i ==> !holds_at(self@.slots, j, *address),
            decreases ID_COUNT - i,
        {
            if self.slots[i] == Some(*address) {
                return Some(i as u8);
            }
            i = i + 1;
        }
        None
    }

    /// Registers `address` under the lowest free player id, if the registry
    /// is below capacity. An address already registered keeps its id and
    /// nothing changes; a full registry rejects a new address and nothing
    /// changes.
    pub fn try_add(&mut self, address: &Address) -> (r: Option<u8>)
        requires
            old(self).wf(),
        ensures
            final(self).wf(),
            final(self)@.capacity == old(self)@.capacity,
            (exists|i: int| holds_at(old(self)@.slots, i, *address)) ==> (r matches Some(id)
                && holds_at(old(self)@.slots, id as int, *address) && final(self)@ == old(self)@),
            (forall|i: int| !holds_at(old(self)@.slots, i, *address)) && old(self).len_spec()
                < old(self)@.capacity ==> (r matches Some(id) && lowest_free(old(self)@.slots, id as int)
                && final(self)@.slots == old(self)@.slots.update(id as int, Some(*address))),
            (forall|i: int| !holds_at(old(self)@.slots, i, *address)) && old(self).len_spec()
                >= old(self)@.capacity ==> r is None && final(self)@ == old(self)@,
    {
        if let Some(id) = self.lookup(address) {
            return Some(id);
        }
        if self.count >= self.capacity as usize {
            return None;
        }
        proof {
            lemma_count_bounded(self.slots@);
        }
        let mut i: usize = 0;
        while i < ID_COUNT
            invariant
                self.wf(),
                self.count < self.capacity,
                self.slots@ == old(self).slots@,
                self.count == old(self).count,
                self.capacity == old(self).capacity,
                forall|j: int| !holds_at(self.slots@, j, *address),
                i <= ID_COUNT,
                forall|j: int| 0 <= j < i ==> #[trigger] self.slots@[j] is Some,
            decreases ID_COUNT - i,
        {
            if self.slots[i].is_none() {
                let ghost before = self.slots@;
                self.slots.set(i, Some(*address));
                proof {
                    lemma_count_update(before, i as int, Some(*address));
                    assert forall|p: int, q: int, a: Address|
                        holds_at(self.slots@, p, a) && holds_at(self.slots@, q, a) implies p == q by {
                        if p != i && q != i {
                            assert(holds_at(before, p, a) && holds_at(before, q, a));
                        } else if p == i && q != i {
                            assert(holds_at(before, q, *address));
                        } else if p != i && q == i {
                            assert(holds_at(before, p, *address));
                        }
                    }
                }
                self.count = self.count + 1;
                return Some(i as u8);
            }
            i = i + 1;
        }
        proof {
            lemma_count_bounded(self.slots@);
        }
        None
    }

    /// Removes `address`, freeing its player id, which is returned.
    pub fn remove(&mut self, address: &Address) -> (r: Option<u8>)
        requires
            old(self).wf(),
        ensures
            final(self).wf(),
            final(self)@.capacity == old(self)@.capacity,
            r matches Some(id) ==> holds_at(old(self)@.slots, id as int, *address)
                && final(self)@.slots == old(self)@.slots.update(id as int, None),
            r is None ==> (forall|i: int| !holds_at(old(self)@.slots, i, *address)) && final(self)@
                == old(self)@,
    {
        match self.lookup(address) {
            Some(id) => {
                let ghost before = self.slots@;
                self.slots.set(id as usize, None);
                proof {
                    lemma_count_update(before, id as int, None);
                    assert forall|p: int, q: int, a: Address|
                        holds_at(self.slots@, p, a) && holds_at(self.slots@, q, a) implies p == q by {
                        assert(holds_at(before, p, a) && holds_at(before, q, a));
                    }
                }
                self.count = self.count - 1;
                Some(id)
            },
            None => None,
        }
    }

    /// The address that holds player id `id`, if any.
    pub fn slot(&self, id: usize) -> (r: Option<Address>)
        requires
            self.wf(),
            id < ID_COUNT,
        ensures
            r == self@.slots[id as int],
    {
        self.slots[id]
    }
}

} // verus!
