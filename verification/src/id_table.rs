//! Generational tables: values that are found again by 64-bit identifiers.
//!
//! The identifiers come from a [`thunderdome::Arena`]. An identifier is the bit
//! form of an arena index: its low 32 bits are the slot, its high 32 bits the
//! (never zero) generation.

use thunderdome::Arena;
use vstd::prelude::*;

verus! {

/// A generational arena of `thunderdome`.
#[verifier::external_type_specification]
#[verifier::external_body]
#[verifier::reject_recursive_types(T)]
pub struct ExArena<T>(Arena<T>);

/// What an arena holds: each occupied index in bit form, with its value.
pub uninterp spec fn arena_entries(arena: Arena<usize>) -> Map<u64, usize>;

/// The slot of an identifier.
pub open spec fn slot_of(id: u64) -> u64 {
    id % 0x1_0000_0000
}

/// Whether a 64-bit value is the bit form of an index that an arena can hold
/// and release again: its generation is not zero and its slot is not the last
/// one that 32 bits can number.
pub open spec fn is_id(id: u64) -> bool {
    &&& id >= 0x1_0000_0000
    &&& slot_of(id) < 0xFFFF_FFFF
}

/// Whether values are the identifiers of a table: each is one that an arena can
/// hold, no two have the same slot, and there are not too many.
pub open spec fn are_table_ids(ids: Set<u64>) -> bool {
    &&& ids.finite()
    &&& ids.len() <= 0xFFFF_FFFF
    &&& forall|k: u64| #[trigger] ids.contains(k) ==> is_id(k)
    &&& forall|k1: u64, k2: u64| #[trigger]
        ids.contains(k1) && #[trigger] ids.contains(k2) && k1 != k2 ==> slot_of(k1) != slot_of(k2)
}

/// [`Arena::with_capacity`]: an arena that holds nothing. No arena can hold more than
/// `u32::MAX` values, and a much larger capacity would panic.
#[verifier::external_body]
pub(crate) fn arena_with_capacity(capacity: usize) -> (arena: Arena<usize>)
    requires
        capacity <= 0xFFFF_FFFF,
    ensures
        arena_entries(arena).dom() == Set::<u64>::empty(),
{
    Arena::with_capacity(capacity)
}

/// [`Arena::len`]: the number of occupied slots.
#[verifier::external_body]
fn arena_len(arena: &Arena<usize>) -> (len: usize)
    ensures
        len == arena_entries(*arena).len(),
{
    arena.len()
}

/// [`Arena::insert`]: stores `value` in a slot that was not occupied, and
/// returns the index under which it is found. An arena that already holds
/// `u32::MAX` values would panic.
#[verifier::external_body]
fn arena_insert(arena: &mut Arena<usize>, value: usize) -> (id: u64)
    requires
        arena_entries(*old(arena)).len() < 0xFFFF_FFFF,
    ensures
        is_id(id),
        forall|k: u64| #[trigger]
            arena_entries(*old(arena)).contains_key(k) ==> slot_of(k) != slot_of(id),
        arena_entries(*final(arena)) == arena_entries(*old(arena)).insert(id, value),
{
    arena.insert(value).to_bits()
}

/// [`Arena::insert_at`]: stores `value` under the given index. Whatever
/// occupied its slot before, under this or another generation, is replaced and
/// returned. An arena that already holds `u32::MAX` values in other slots would
/// panic.
#[verifier::external_body]
pub(crate) fn arena_insert_at(arena: &mut Arena<usize>, id: u64, value: usize) -> (replaced: Option<usize>)
    requires
        is_id(id),
        arena_entries(*old(arena)).len() < 0xFFFF_FFFF,
    ensures
        arena_entries(*final(arena)) == arena_entries(*old(arena)).restrict(
            Set::new(|k: u64| slot_of(k) != slot_of(id)),
        ).insert(id, value),
        match replaced {
            Some(v) => exists|k: u64|
                slot_of(k) == slot_of(id) && arena_entries(*old(arena)).contains_pair(k, v),
            None => forall|k: u64| #[trigger]
                arena_entries(*old(arena)).contains_key(k) ==> slot_of(k) != slot_of(id),
        },
{
    arena.insert_at(thunderdome::Index::from_bits(id).unwrap(), value)
}

/// [`Arena::remove`]: takes the value stored under exactly this index, if there
/// is one, and leaves every other entry alone.
#[verifier::external_body]
pub(crate) fn arena_remove(arena: &mut Arena<usize>, id: u64) -> (removed: Option<usize>)
    requires
        is_id(id),
    ensures
        removed == (if arena_entries(*old(arena)).contains_key(id) {
            Some(arena_entries(*old(arena))[id])
        } else {
            None
        }),
        arena_entries(*final(arena)) == arena_entries(*old(arena)).remove(id),
{
    arena.remove(thunderdome::Index::from_bits(id).unwrap())
}

/// [`Arena::get`]: the value stored under exactly this index.
#[verifier::external_body]
fn arena_get(arena: &Arena<usize>, id: u64) -> (value: Option<usize>)
    requires
        is_id(id),
    ensures
        value == (if arena_entries(*arena).contains_key(id) {
            Some(arena_entries(*arena)[id])
        } else {
            None
        }),
{
    arena.get(thunderdome::Index::from_bits(id).unwrap()).copied()
}

/// [`Arena::iter`]: every entry once, in ascending order of slots.
#[verifier::external_body]
fn arena_iter(arena: &Arena<usize>) -> (entries: Vec<(u64, usize)>)
    ensures
        forall|i: int, j: int|
            0 <= i < j < entries@.len() ==> slot_of(#[trigger] entries@[i].0) < slot_of(
                #[trigger] entries@[j].0,
            ),
        forall|i: int|
            0 <= i < entries@.len() ==> arena_entries(*arena).contains_pair(
                (#[trigger] entries@[i]).0,
                entries@[i].1,
            ),
        forall|k: u64| #[trigger]
            arena_entries(*arena).contains_key(k) ==> exists|i: int|
                0 <= i < entries@.len() && (#[trigger] entries@[i]).0 == k,
{
    arena.iter().map(|(index, value)| (index.to_bits(), *value)).collect()
}


/// A table of values, each under an identifier of its own. The arena maps an
/// identifier to the position of its value.
pub struct IdTable<T> {
    index: Arena<usize>,
    values: Vec<Option<T>>,
    vacant: Vec<usize>,
}

impl<T> View for IdTable<T> {
    type V = Map<u64, T>;

    closed spec fn view(&self) -> Map<u64, T> {
        arena_entries(self.index).map_values(|p: usize| self.values@[p as int]->0)
    }
}

impl<T> IdTable<T> {
    /// Well-formedness: identifiers are valid and have distinct slots; each
    /// leads to a value at a position of its own; vacant positions are empty, and
    /// there are no others.
    pub closed spec fn wf(&self) -> bool {
        let entries = arena_entries(self.index);
        &&& entries.dom().finite()
        &&& entries.len() <= 0xFFFF_FFFF
        &&& forall|k: u64| #[trigger]
            entries.contains_key(k) ==> is_id(k) && entries[k] < self.values@.len()
                && self.values@[entries[k] as int] is Some
        &&& forall|k1: u64, k2: u64| #[trigger]
            entries.contains_key(k1) && #[trigger] entries.contains_key(k2) && k1 != k2
                ==> entries[k1] != entries[k2] && slot_of(k1) != slot_of(k2)
        &&& forall|i: int|
            0 <= i < self.vacant@.len() ==> (#[trigger] self.vacant@[i]) < self.values@.len()
                && self.values@[self.vacant@[i] as int] is None
        &&& self.vacant@.no_duplicates()
        &&& self.values@.len() == entries.len() + self.vacant@.len()
    }

    /// Whether nothing was ever stored.
    pub closed spec fn fresh(&self) -> bool {
        &&& arena_entries(self.index).dom() == Set::<u64>::empty()
        &&& self.values@.len() == 0
        &&& self.vacant@.len() == 0
    }

    /// A table in which nothing was ever stored is well-formed and empty.
    pub proof fn lemma_fresh(&self)
        requires
            self.fresh(),
        ensures
            self.wf(),
            self@ == Map::<u64, T>::empty(),
    {
        let entries = arena_entries(self.index);
        assert(entries.dom().len() == 0);
        assert forall|k: u64| !#[trigger] entries.contains_key(k) by {
            assert(!entries.dom().contains(k));
        }
        assert(self@ =~= Map::<u64, T>::empty());
    }

    /// The position of the value under an identifier.
    pub closed spec fn position_of(&self, id: u64) -> int {
        arena_entries(self.index)[id] as int
    }

    /// The number of positions: every position is below it. It is the largest number of
    /// values that there were at once.
    pub closed spec fn num_positions(&self) -> int {
        self.values@.len() as int
    }

    /// What holds of the identifiers of a table, and of the positions of their
    /// values.
    pub proof fn lemma_ids(&self)
        requires
            self.wf(),
        ensures
            self@.dom().finite(),
            self@.len() <= 0xFFFF_FFFF,
            self@.len() <= self.num_positions(),
            forall|k: u64| #[trigger] self@.contains_key(k) ==> is_id(k),
            forall|k: u64| #[trigger]
                self@.contains_key(k) ==> 0 <= self.position_of(k) < self.num_positions(),
            forall|k1: u64, k2: u64| #[trigger]
                self@.contains_key(k1) && #[trigger] self@.contains_key(k2) && k1 != k2
                    ==> slot_of(k1) != slot_of(k2) && self.position_of(k1) != self.position_of(
                    k2,
                ),
            in_slot_order(slot_order(self@.dom())),
            slot_order(self@.dom()).to_set() == self@.dom(),
            slot_order(self@.dom()).no_duplicates(),
    {
        assert(self@.dom() =~= arena_entries(self.index).dom());
        assert forall|k1: u64, k2: u64| #[trigger]
            self@.dom().contains(k1) && #[trigger] self@.dom().contains(k2) && k1
                != k2 implies slot_of(k1) != slot_of(k2) by {
            assert(arena_entries(self.index).contains_key(k1));
            assert(arena_entries(self.index).contains_key(k2));
        }
        lemma_slot_order(self@.dom());
    }

    /// An empty table with room for `capacity` values.
    pub fn with_capacity(capacity: usize) -> (table: Self)
        requires
            capacity <= 0xFFFF_FFFF,
        ensures
            table.wf(),
            table.fresh(),
            table@ == Map::<u64, T>::empty(),
            table.num_positions() == 0,
    {
        let table = IdTable {
            index: arena_with_capacity(capacity),
            values: Vec::with_capacity(capacity),
            vacant: Vec::new(),
        };
        assert(table@ =~= Map::<u64, T>::empty());
        table
    }

    /// The number of values.
    pub fn len(&self) -> (len: usize)
        requires
            self.wf(),
        ensures
            len == self@.len(),
    {
        assert(self@.dom() =~= arena_entries(self.index).dom());
        arena_len(&self.index)
    }

    /// Whether nothing was ever stored.
    pub fn is_fresh(&self) -> (fresh: bool)
        ensures
            fresh == self.fresh(),
    {
        let entries = arena_iter(&self.index);
        proof {
            let map = arena_entries(self.index);
            if entries@.len() > 0 {
                assert(map.contains_pair(entries@[0].0, entries@[0].1));
                assert(map.dom().contains(entries@[0].0));
            } else {
                assert(map.dom() =~= Set::<u64>::empty());
            }
        }
        entries.is_empty() && self.values.is_empty() && self.vacant.is_empty()
    }

    /// The number of positions that this table has handed out.
    pub fn positions(&self) -> (num: usize)
        ensures
            num == self.num_positions(),
    {
        self.values.len()
    }

    /// The position of the value under `id`.
    pub fn position(&self, id: u64) -> (position: Option<usize>)
        requires
            self.wf(),
        ensures
            match position {
                Some(p) => self@.contains_key(id) && p == self.position_of(id),
                None => !self@.contains_key(id),
            },
    {
        if id < 0x1_0000_0000 || id % 0x1_0000_0000 >= 0xFFFF_FFFF {
            return None;
        }
        arena_get(&self.index, id)
    }

    /// Whether there is a value under `id`.
    pub fn contains(&self, id: u64) -> (found: bool)
        requires
            self.wf(),
        ensures
            found == self@.contains_key(id),
    {
        self.position(id).is_some()
    }

    /// The value under `id`.
    pub fn get(&self, id: u64) -> (value: Option<&T>)
        requires
            self.wf(),
        ensures
            match value {
                Some(v) => self@.contains_key(id) && *v == self@[id],
                None => !self@.contains_key(id),
            },
    {
        match self.position(id) {
            Some(p) => self.values[p].as_ref(),
            None => None,
        }
    }

    /// Write access to the value under `id`.
    pub fn get_mut(&mut self, id: u64) -> (value: Option<&mut T>)
        requires
            old(self).wf(),
        ensures
            final(self).wf(),
            final(self).num_positions() == old(self).num_positions(),
            forall|k: u64| final(self).position_of(k) == old(self).position_of(k),
            match value {
                Some(v) => old(self)@.contains_key(id) && *v == old(self)@[id] && final(self)@
                    == old(self)@.insert(id, *final(v)),
                None => !old(self)@.contains_key(id) && final(self)@ == old(self)@,
            },
    {
        match self.position(id) {
            Some(p) => self.values[p].as_mut(),
            None => None,
        }
    }

    /// Adds a value under a new identifier.
    pub fn insert(&mut self, value: T) -> (id: u64)
        requires
            old(self).wf(),
            old(self)@.len() < 0xFFFF_FFFF,
        ensures
            final(self).wf(),
            is_id(id),
            !old(self)@.contains_key(id),
            final(self)@ == old(self)@.insert(id, value),
            final(self).num_positions() == (if final(self)@.len() > old(self).num_positions() {
                final(self)@.len() as int
            } else {
                old(self).num_positions()
            }),
    {
        proof {
            self.lemma_ids();
            assert(self@.dom() =~= arena_entries(self.index).dom());
        }
        let position: usize = match self.vacant.pop() {
            Some(p) => p,
            None => {
                self.values.push(None);
                self.values.len() - 1
            },
        };
        self.values[position] = Some(value);
        let id: u64 = arena_insert(&mut self.index, position);
        assert(self@ =~= old(self)@.insert(id, value));
        assert(self@.dom() =~= arena_entries(self.index).dom());
        id
    }

    /// Adds a value under a given identifier, whose slot must be free.
    pub fn insert_at(&mut self, id: u64, value: T)
        requires
            old(self).wf(),
            is_id(id),
            old(self)@.len() < 0xFFFF_FFFF,
            forall|k: u64| #[trigger] old(self)@.contains_key(k) ==> slot_of(k) != slot_of(id),
        ensures
            final(self).wf(),
            final(self)@ == old(self)@.insert(id, value),
            final(self).num_positions() == (if final(self)@.len() > old(self).num_positions() {
                final(self)@.len() as int
            } else {
                old(self).num_positions()
            }),
    {
        proof {
            self.lemma_ids();
            assert(self@.dom() =~= arena_entries(self.index).dom());
            assert forall|k: u64| #[trigger]
                arena_entries(self.index).contains_key(k) implies slot_of(k) != slot_of(id) by {
                assert(self@.contains_key(k));
            }
        }
        let position: usize = match self.vacant.pop() {
            Some(p) => p,
            None => {
                self.values.push(None);
                self.values.len() - 1
            },
        };
        self.values[position] = Some(value);
        arena_insert_at(&mut self.index, id, position);
        assert(arena_entries(self.index) =~= arena_entries(old(self).index).insert(id, position));
        assert(self@ =~= old(self)@.insert(id, value));
        assert(self@.dom() =~= arena_entries(self.index).dom());
    }

    /// Removes the value under `id`.
    pub fn remove(&mut self, id: u64) -> (removed: Option<T>)
        requires
            old(self).wf(),
        ensures
            final(self).wf(),
            final(self)@ == old(self)@.remove(id),
            final(self).num_positions() == old(self).num_positions(),
            match removed {
                Some(v) => old(self)@.contains_key(id) && v == old(self)@[id],
                None => !old(self)@.contains_key(id),
            },
    {
        if id < 0x1_0000_0000 || id % 0x1_0000_0000 >= 0xFFFF_FFFF {
            assert(self@ =~= old(self)@.remove(id));
            return None;
        }
        match arena_remove(&mut self.index, id) {
            Some(p) => {
                let value = self.values[p].take();
                self.vacant.push(p);
                assert(self@ =~= old(self)@.remove(id));
                value
            },
            None => {
                assert(self@ =~= old(self)@.remove(id));
                None
            },
        }
    }

    /// All identifiers, in ascending order of their slots.
    pub fn ids(&self) -> (ids: Vec<u64>)
        requires
            self.wf(),
        ensures
            ids@ == slot_order(self@.dom()),
            in_slot_order(ids@),
            ids@.to_set() == self@.dom(),
            ids@.no_duplicates(),
            ids@.len() == self@.len(),
    {
        let entries = arena_iter(&self.index);
        let mut ids: Vec<u64> = Vec::with_capacity(entries.len());
        for i in 0..entries.len()
            invariant
                ids@.len() == i,
                forall|j: int| 0 <= j < i ==> #[trigger] ids@[j] == entries@[j].0,
        {
            ids.push(entries[i].0);
        }
        proof {
            assert forall|k: u64| #[trigger] ids@.to_set().contains(k) == self@.dom().contains(
                k,
            ) by {
                if self@.dom().contains(k) {
                    assert(arena_entries(self.index).contains_key(k));
                    let i = choose|i: int| 0 <= i < entries@.len() && (#[trigger] entries@[i]).0 == k;
                    assert(ids@[i] == k);
                }
                if ids@.contains(k) {
                    let i = choose|i: int| 0 <= i < ids@.len() && ids@[i] == k;
                    assert(entries@[i].0 == k);
                }
            }
            assert(ids@.to_set() =~= self@.dom());
            assert forall|i: int, j: int| 0 <= i < j < ids@.len() implies ids@[i] != ids@[j] by {
                assert(entries@[i].0 == ids@[i]);
                assert(entries@[j].0 == ids@[j]);
            }
            ids@.unique_seq_to_set();
            assert(in_slot_order(ids@));
            lemma_slot_order_unique(ids@, slot_order(self@.dom()));
        }
        ids
    }
}

/// Whether identifiers stand in ascending order of their slots.
pub open spec fn in_slot_order(ids: Seq<u64>) -> bool {
    forall|i: int, j: int|
        0 <= i < j < ids.len() ==> slot_of(#[trigger] ids[i]) < slot_of(#[trigger] ids[j])
}

/// The identifiers of a set, in ascending order of their slots.
pub open spec fn slot_order(ids: Set<u64>) -> Seq<u64> {
    choose|s: Seq<u64>| #[trigger] in_slot_order(s) && s.to_set() == ids
}

proof fn lemma_greatest_slot(ids: Set<u64>) -> (m: u64)
    requires
        ids.finite(),
        ids.len() > 0,
    ensures
        ids.contains(m),
        forall|k: u64| #[trigger] ids.contains(k) ==> slot_of(k) <= slot_of(m),
    decreases ids.len(),
{
    let a = ids.choose();
    assert(ids.contains(a)) by {
        if forall|x: u64| !ids.contains(x) {
            assert(ids =~= Set::empty());
        }
    }
    let rest = ids.remove(a);
    if rest.len() == 0 {
        assert forall|k: u64| #[trigger] ids.contains(k) implies slot_of(k) <= slot_of(a) by {
            if k != a {
                assert(rest.contains(k));
            }
        }
        a
    } else {
        let m = lemma_greatest_slot(rest);
        let r = if slot_of(a) > slot_of(m) {
            a
        } else {
            m
        };
        assert forall|k: u64| #[trigger] ids.contains(k) implies slot_of(k) <= slot_of(r) by {
            if k != a {
                assert(rest.contains(k));
            }
        }
        r
    }
}

/// Identifiers with distinct slots have a slot order.
pub proof fn lemma_slot_order(ids: Set<u64>)
    requires
        ids.finite(),
        forall|k1: u64, k2: u64| #[trigger]
            ids.contains(k1) && #[trigger] ids.contains(k2) && k1 != k2 ==> slot_of(k1) != slot_of(
                k2,
            ),
    ensures
        in_slot_order(slot_order(ids)),
        slot_order(ids).to_set() == ids,
        slot_order(ids).no_duplicates(),
    decreases ids.len(),
{
    if ids.len() == 0 {
        let s = Seq::<u64>::empty();
        assert(ids =~= Set::empty());
        assert(s.to_set() =~= ids);
        assert(in_slot_order(s));
    } else {
        let m = lemma_greatest_slot(ids);
        let rest = ids.remove(m);
        lemma_slot_order(rest);
        let s = slot_order(rest).push(m);
        assert forall|i: int, j: int| 0 <= i < j < s.len() implies slot_of(#[trigger] s[i])
            < slot_of(#[trigger] s[j]) by {
            if j == s.len() - 1 {
                assert(slot_order(rest).contains(s[i]));
                assert(rest.contains(s[i]));
                assert(ids.contains(s[i]));
            }
        }
        slot_order(rest).lemma_push_to_set_commute(m);
        assert(s.to_set() =~= ids);
        assert(in_slot_order(s));
    }
    let s = slot_order(ids);
    assert(in_slot_order(s) && s.to_set() == ids);
    assert forall|i: int, j: int| 0 <= i < s.len() && 0 <= j < s.len() && i != j implies s[i]
        != s[j] by {
        if i < j {
            assert(slot_of(s[i]) < slot_of(s[j]));
        } else {
            assert(slot_of(s[j]) < slot_of(s[i]));
        }
    }
}

/// There is only one slot order of a set of identifiers.
pub proof fn lemma_slot_order_unique(a: Seq<u64>, b: Seq<u64>)
    requires
        in_slot_order(a),
        in_slot_order(b),
        a.to_set() == b.to_set(),
    ensures
        a == b,
    decreases a.len(),
{
    if a.len() == 0 {
        if b.len() > 0 {
            assert(b.to_set().contains(b[0]));
            assert(a.contains(b[0]));
        }
        assert(a =~= b);
    } else {
        assert(a.to_set().contains(a.last()));
        assert(b.contains(a.last()));
        let x = b.index_of(a.last());
        assert(b.to_set().contains(b.last()));
        assert(a.contains(b.last()));
        let y = a.index_of(b.last());
        // Each last element has the greatest slot of the common set.
        assert(x == b.len() - 1) by {
            if x < b.len() - 1 {
                assert(slot_of(b[x]) < slot_of(b[b.len() - 1]));
                if y < a.len() - 1 {
                    assert(slot_of(a[y]) < slot_of(a[a.len() - 1]));
                }
            }
        }
        assert forall|k: u64| a.drop_last().to_set().contains(k) == b.drop_last().to_set().contains(
            k,
        ) by {
            if a.drop_last().contains(k) {
                let i = a.drop_last().index_of(k);
                assert(a[i] == k);
                assert(slot_of(a[i]) < slot_of(a[a.len() - 1]));
                assert(a.to_set().contains(k));
                let j = b.index_of(k);
                assert(b[j] == k);
                assert(b.drop_last()[j] == k);
            }
            if b.drop_last().contains(k) {
                let i = b.drop_last().index_of(k);
                assert(b[i] == k);
                assert(slot_of(b[i]) < slot_of(b[b.len() - 1]));
                assert(b.to_set().contains(k));
                let j = a.index_of(k);
                assert(a[j] == k);
                assert(a.drop_last()[j] == k);
            }
        }
        assert(a.drop_last().to_set() =~= b.drop_last().to_set());
        lemma_slot_order_unique(a.drop_last(), b.drop_last());
        assert(a =~= a.drop_last().push(a.last()));
        assert(b =~= b.drop_last().push(b.last()));
    }
}

/// Numbers that can be those of a table have slots of their own, and each has one.
pub proof fn law_table_ids_have_slots_of_their_own(ids: Set<u64>, a: u64, b: u64)
    requires
        are_table_ids(ids),
        ids.contains(a),
        ids.contains(b),
    ensures
        a % 0x1_0000_0000 == b % 0x1_0000_0000 ==> a == b,
        a % 0x1_0000_0000 != 0xFFFF_FFFF,
        a >= 0x1_0000_0000,
        ids.len() <= 0xFFFF_FFFF,
{
}

/// Any one number that is not that of the first generation, and whose slot there can be, can
/// be that of a table.
pub proof fn law_one_number_is_that_of_a_table(id: u64)
    requires
        id >= 0x1_0000_0000,
        id % 0x1_0000_0000 != 0xFFFF_FFFF,
    ensures
        are_table_ids(set![id]),
        are_table_ids(Set::empty()),
{
    assert(set![id].len() == 1);
}

/// In the order of their slots, numbers are in ascending order of their lower halves.
pub proof fn law_slot_order_ascends(ids: Seq<u64>, i: int, j: int)
    requires
        in_slot_order(ids),
        0 <= i < j < ids.len(),
    ensures
        ids[i] % 0x1_0000_0000 < ids[j] % 0x1_0000_0000,
{
}

} // verus!
