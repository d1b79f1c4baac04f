//! Allocation and recycling of entity identifiers.
//!
//! Identifiers are handed out from a rising counter; removed identifiers
//! below the counter are parked on a free list and handed out again before
//! the counter grows. The free list is kept sorted and duplicate-free, so the
//! smallest parked identifier is always reused first.

use crate::Entity;
use vstd::prelude::*;

verus! {

/// The parked identifiers: strictly ascending, all below `next`.
pub open spec fn spec_free_list_wf(deleted: Seq<u32>, next: u32) -> bool {
    &&& forall|i: int, j: int| 0 <= i < j < deleted.len() ==> deleted[i] < deleted[j]
    &&& forall|i: int| 0 <= i < deleted.len() ==> deleted[i] < next
}

/// Hands out and takes back entity identifiers.
pub struct EntityManager {
    next: u32,
    deleted: Vec<u32>,
}

/// Walks the live identifiers of a manager in ascending order.
pub struct EntityIterator {
    entities: Vec<Entity>,
    pos: usize,
}

impl EntityManager {
    /// The free list is strictly ascending — so duplicate-free — and sits
    /// wholly below the counter.
    pub open spec fn wf(&self) -> bool {
        spec_free_list_wf(self.free_list(), self.next_val())
    }

    /// The rising counter: no identifier at or above it has ever been
    /// handed out and kept.
    pub closed spec fn next_val(&self) -> u32 {
        self.next
    }

    /// The parked identifiers, in ascending order.
    pub closed spec fn free_list(&self) -> Seq<u32> {
        self.deleted@
    }

    /// Whether identifier `e` is currently live: below the counter and not
    /// parked.
    pub open spec fn spec_live(&self, e: u32) -> bool {
        e < self.next_val() && !self.free_list().contains(e)
    }

    /// A manager with no identifiers handed out.
    pub fn new() -> (r: EntityManager)
        ensures
            r.wf(),
            r.next_val() == 0,
            r.free_list() == Seq::<u32>::empty(),
    {
        EntityManager { next: 0, deleted: Vec::new() }
    }

    /// Hands out the smallest parked identifier, or a fresh one from the
    /// counter when nothing is parked.
    pub fn next_entity(&mut self) -> (r: Entity)
        requires
            old(self).wf(),
            old(self).free_list().len() == 0 ==> old(self).next_val() < u32::MAX,
        ensures
            final(self).wf(),
            !old(self).spec_live(r.0),
            final(self).spec_live(r.0),
            old(self).free_list().len() > 0 ==> {
                &&& r.0 == old(self).free_list()[0]
                &&& final(self).free_list() == old(self).free_list().skip(1)
                &&& final(self).next_val() == old(self).next_val()
            },
            old(self).free_list().len() == 0 ==> {
                &&& r.0 == old(self).next_val()
                &&& final(self).free_list() == old(self).free_list()
                &&& final(self).next_val() == old(self).next_val() + 1
            },
            forall|e: u32| #[trigger] final(self).spec_live(e) <==> (old(self).spec_live(e) || e == r.0),
    {
        if self.deleted.len() > 0 {
            let e = self.deleted.remove(0);
            proof {
                assert(self.deleted@ =~= old(self).free_list().skip(1));
                assert forall|x: u32| final(self).spec_live(x) <==> (old(self).spec_live(x) || x
                    == e) by {
                    if old(self).free_list().contains(x) && x != e {
                        let l = choose|l: int|
                            0 <= l < old(self).free_list().len() && old(self).free_list()[l] == x;
                        assert(self.deleted@[l - 1] == x);
                    }
                    if self.deleted@.contains(x) {
                        let l = choose|l: int| 0 <= l < self.deleted@.len() && self.deleted@[l] == x;
                        assert(old(self).free_list()[l + 1] == x);
                    }
                }
            }
            Entity(e)
        } else {
            let e = self.next;
            self.next = self.next + 1;
            Entity(e)
        }
    }

    /// Takes `entity` back. The identifier right under the counter shrinks
    /// the counter; anything older is parked for reuse; an identifier never
    /// handed out, or one already parked, is ignored.
    pub fn remove_entity(&mut self, entity: Entity)
        requires
            old(self).wf(),
        ensures
            final(self).wf(),
            !final(self).spec_live(entity.0),
            old(self).next_val() > 0 && entity.0 == old(self).next_val() - 1 ==> {
                &&& final(self).next_val() == entity.0
                &&& final(self).free_list().to_set() == old(self).free_list().to_set().remove(
                    entity.0,
                )
            },
            old(self).next_val() > 0 && entity.0 < old(self).next_val() - 1 ==> {
                &&& final(self).next_val() == old(self).next_val()
                &&& final(self).free_list().to_set() == old(self).free_list().to_set().insert(
                    entity.0,
                )
            },
            entity.0 >= old(self).next_val() ==> *final(self) == *old(self),
            forall|e: u32|
                #[trigger] final(self).spec_live(e) <==> (old(self).spec_live(e) && e != entity.0),
    {
        if self.next == 0 {
            return ;
        }
        let last = self.next - 1;
        if entity.0 == last {
            self.next = entity.0;
            // The counter may land on a parked identifier; unpark it so that
            // everything parked stays below the counter.
            if self.deleted.len() > 0 && self.deleted[self.deleted.len() - 1] == entity.0 {
                self.deleted.pop();
                proof {
                    let s = old(self).free_list();
                    assert forall|x: u32|
                        self.deleted@.to_set().contains(x) <==> s.to_set().remove(
                            entity.0,
                        ).contains(x) by {
                        if self.deleted@.to_set().contains(x) {
                            seq_to_set_contains(self.deleted@, x);
                            let j = choose|j: int|
                                0 <= j < self.deleted@.len() && self.deleted@[j] == x;
                            assert(s[j] == x);
                            seq_to_set_contains_fwd(s, x);
                        }
                        if s.to_set().contains(x) && x != entity.0 {
                            seq_to_set_contains(s, x);
                            let j = choose|j: int| 0 <= j < s.len() && s[j] == x;
                            assert(j < s.len() - 1);
                            assert(self.deleted@[j] == x);
                            seq_to_set_contains_fwd(self.deleted@, x);
                        }
                    }
                    assert(self.deleted@.to_set() =~= s.to_set().remove(entity.0));
                }
            } else {
                proof {
                    let s = self.deleted@;
                    assert(!s.contains(entity.0)) by {
                        if s.contains(entity.0) {
                            let j = choose|j: int| 0 <= j < s.len() && s[j] == entity.0;
                            assert(s[j] <= s[s.len() - 1]);
                        }
                    }
                    assert(s.to_set() =~= s.to_set().remove(entity.0)) by {
                        assert forall|x: u32| s.to_set().contains(x) implies x != entity.0 by {
                            seq_to_set_contains(s, x);
                        }
                    }
                }
            }
        } else if entity.0 < last {
            self.insert_sorted(entity.0);
        }
        proof {
            assert forall|e: u32| #[trigger]
                self.spec_live(e) <==> (old(self).spec_live(e) && e != entity.0) by {
                if e == entity.0 && entity.0 < last {
                    assert(self.deleted@.to_set().contains(entity.0));
                    seq_to_set_contains(self.deleted@, entity.0);
                }
                if e != entity.0 && entity.0 < last && old(self).free_list().contains(e) {
                    seq_to_set_contains_fwd(old(self).free_list(), e);
                    assert(self.deleted@.to_set().contains(e));
                    seq_to_set_contains(self.deleted@, e);
                }
                if e != entity.0 && entity.0 < last && self.deleted@.contains(e) {
                    seq_to_set_contains_fwd(self.deleted@, e);
                    seq_to_set_contains(old(self).free_list(), e);
                }
                if e != entity.0 && entity.0 == last && old(self).free_list().contains(e) {
                    seq_to_set_contains_fwd(old(self).free_list(), e);
                    assert(self.deleted@.to_set().contains(e));
                    seq_to_set_contains(self.deleted@, e);
                }
                if e != entity.0 && entity.0 == last && self.deleted@.contains(e) {
                    seq_to_set_contains_fwd(self.deleted@, e);
                    seq_to_set_contains(old(self).free_list(), e);
                }
            }
        }
    }

    /// Parks `value` at its sorted position, keeping the list duplicate-free.
    fn insert_sorted(&mut self, value: u32)
        requires
            old(self).wf(),
            value < old(self).next_val(),
        ensures
            final(self).wf(),
            final(self).next_val() == old(self).next_val(),
            final(self).free_list().to_set() == old(self).free_list().to_set().insert(value),
    {
        let mut i: usize = 0;
        while i < self.deleted.len()
            invariant
                self.deleted@ == old(self).free_list(),
                self.next == old(self).next_val(),
                old(self).wf(),
                i <= self.deleted@.len(),
                forall|j: int| 0 <= j < i ==> self.deleted@[j] < value,
            decreases self.deleted.len() - i,
        {
            let d = self.deleted[i];
            if d == value {
                proof {
                    seq_to_set_contains_fwd(self.deleted@, value);
                    assert(self.deleted@.to_set() =~= old(self).free_list().to_set().insert(
                        value,
                    ));
                }
                return ;
            }
            if d > value {
                self.deleted.insert(i, value);
                proof {
                    insert_keeps_sorted(old(self).free_list(), i as int, value, self.next);
                    seq_insert_to_set(old(self).free_list(), i as int, value);
                }
                return ;
            }
            i += 1;
        }
        self.deleted.push(value);
        proof {
            assert(self.deleted@.drop_last() =~= old(self).free_list());
            seq_insert_to_set(old(self).free_list(), old(self).free_list().len() as int, value);
            assert(old(self).free_list().insert(old(self).free_list().len() as int, value)
                =~= self.deleted@);
        }
    }

    /// The live identifiers, in ascending order, ready to be walked.
    pub fn iter(&self) -> (r: EntityIterator)
        requires
            self.wf(),
        ensures
            r.wf(),
            r.remaining() == self.spec_live_seq(),
    {
        let mut entities: Vec<Entity> = Vec::new();
        let mut e: u32 = 0;
        let mut d: usize = 0;
        while e < self.next
            invariant
                self.wf(),
                e <= self.next,
                d <= self.deleted@.len(),
                forall|j: int| 0 <= j < d ==> self.deleted@[j] < e,
                forall|j: int| d <= j < self.deleted@.len() ==> e <= self.deleted@[j],
                entities@.map_values(|x: Entity| x.0) == spec_live_below(self.deleted@, e as int),
            decreases self.next - e,
        {
            if d < self.deleted.len() && self.deleted[d] == e {
                d += 1;
            } else {
                proof {
                    assert(!self.deleted@.contains(e)) by {
                        if self.deleted@.contains(e) {
                            let j = choose|j: int|
                                0 <= j < self.deleted@.len() && self.deleted@[j] == e;
                            assert(j < d || j >= d);
                            if j >= d && j > d {
                                assert(self.deleted@[d as int] < self.deleted@[j]);
                            }
                        }
                    }
                }
                entities.push(Entity(e));
            }
            proof {
                assert(entities@.map_values(|x: Entity| x.0) =~= spec_live_below(
                    self.deleted@,
                    e + 1 as int,
                ));
            }
            e += 1;
        }
        let it = EntityIterator { entities, pos: 0 };
        proof {
            assert(it.remaining() =~= self.spec_live_seq());
        }
        it
    }

    /// The live identifiers below the counter, ascending.
    pub open spec fn spec_live_seq(&self) -> Seq<u32> {
        spec_live_below(self.free_list(), self.next_val() as int)
    }
}

/// The identifiers below `bound` that are not in `deleted`, ascending.
pub open spec fn spec_live_below(deleted: Seq<u32>, bound: int) -> Seq<u32>
    decreases (if bound >= 0 {
        bound
    } else {
        0
    }),
{
    if bound <= 0 {
        Seq::empty()
    } else {
        let rest = spec_live_below(deleted, bound - 1);
        if deleted.contains((bound - 1) as u32) {
            rest
        } else {
            rest.push((bound - 1) as u32)
        }
    }
}

/// Membership in a sequence carries over to its set.
proof fn seq_to_set_contains_fwd(s: Seq<u32>, e: u32)
    requires
        s.contains(e),
    ensures
        s.to_set().contains(e),
{
}

/// Membership in a sequence's set carries back to the sequence.
proof fn seq_to_set_contains(s: Seq<u32>, e: u32)
    requires
        s.to_set().contains(e),
    ensures
        s.contains(e),
{
}

/// Inserting below the bound at a position between smaller and larger
/// neighbours keeps the free list well formed.
proof fn insert_keeps_sorted(s: Seq<u32>, i: int, value: u32, next: u32)
    requires
        spec_free_list_wf(s, next),
        value < next,
        0 <= i <= s.len(),
        forall|j: int| 0 <= j < i ==> s[j] < value,
        forall|j: int| i <= j < s.len() ==> value < s[j],
    ensures
        spec_free_list_wf(s.insert(i, value), next),
{
    let t = s.insert(i, value);
    assert forall|a: int, b: int| 0 <= a < b < t.len() implies t[a] < t[b] by {
        assert(t[a] == (if a < i {
            s[a]
        } else if a == i {
            value
        } else {
            s[a - 1]
        }));
        assert(t[b] == (if b < i {
            s[b]
        } else if b == i {
            value
        } else {
            s[b - 1]
        }));
    }
}

/// Inserting into a sequence adds exactly that element to its set.
proof fn seq_insert_to_set(s: Seq<u32>, i: int, value: u32)
    requires
        0 <= i <= s.len(),
    ensures
        s.insert(i, value).to_set() == s.to_set().insert(value),
{
    let t = s.insert(i, value);
    assert forall|x: u32| t.to_set().contains(x) implies s.to_set().contains(x) || x == value by {
        seq_to_set_contains(t, x);
        if x != value {
            let j = choose|j: int| 0 <= j < t.len() && t[j] == x;
            if j < i {
                assert(s[j] == x);
            } else {
                assert(s[j - 1] == x);
            }
            seq_to_set_contains_fwd(s, x);
        }
    }
    assert forall|x: u32| s.to_set().contains(x) || x == value implies t.to_set().contains(x) by {
        if x == value {
            assert(t[i] == value);
            seq_to_set_contains_fwd(t, x);
        } else {
            seq_to_set_contains(s, x);
            let j = choose|j: int| 0 <= j < s.len() && s[j] == x;
            if j < i {
                assert(t[j] == x);
            } else {
                assert(t[j + 1] == x);
            }
            seq_to_set_contains_fwd(t, x);
        }
    }
    assert(t.to_set() =~= s.to_set().insert(value));
}

impl EntityIterator {
    /// The walk never stands past the end of its list.
    pub closed spec fn wf(&self) -> bool {
        self.pos <= self.entities@.len()
    }

    /// The identifiers not yet handed out by the walk.
    pub closed spec fn remaining(&self) -> Seq<u32> {
        self.entities@.map_values(|x: Entity| x.0).skip(self.pos as int)
    }

    /// The next live identifier, ascending, or `None` at the end.
    pub fn next(&mut self) -> (r: Option<Entity>)
        requires
            old(self).wf(),
        ensures
            final(self).wf(),
            old(self).remaining().len() == 0 ==> r is None && final(self).remaining() == old(
                self,
            ).remaining(),
            old(self).remaining().len() > 0 ==> (r matches Some(e) && {
                &&& e.0 == old(self).remaining()[0]
                &&& final(self).remaining() == old(self).remaining().skip(1)
            }),
    {
        if self.pos < self.entities.len() {
            let e = self.entities[self.pos];
            self.pos += 1;
            proof {
                assert(self.remaining() =~= old(self).remaining().skip(1));
                assert(e.0 == old(self).remaining()[0]);
            }
            Some(e)
        } else {
            None
        }
    }
}

} // verus!
