//! The key-value store that the cache writes to, and an in-memory one.
//!
//! The cache asks little of its store: entries are read by key, one or many
//! at a time; they are written with a lifetime and are gone when it is over;
//! reading changes nothing; keys can be listed by their beginning, and
//! deleted. `MemoryStore` does all this in memory, with the time handed in
//! at each call.

use crate::cache_control::minus;
use crate::cache_control::CacheControl;
use crate::entity::writes_view;
use crate::entity::StoreWrite;
use crate::entity::WriteView;
use crate::entry::entry_view;
use crate::entry::CacheEntry;
use crate::entry::EntryView;
use crate::keys::texts;
use crate::text::begins_with;
use crate::text::same_text;
use crate::text::text_starts_with;
use vstd::prelude::*;
use vstd::slice::slice_to_vec;
use vstd::string::*;

verus! {

/// One entry of the store.
#[derive(Debug)]
pub struct Slot {
    key: String,
    entry: CacheEntry,
    stored_at: u64,
    ttl: Option<u64>,
}

/// The mathematical content of a [`Slot`].
pub ghost struct SlotView {
    pub key: Seq<char>,
    pub entry: EntryView,
    /// The second at which the entry was written.
    pub stored_at: u64,
    /// The seconds that the entry lasts, if it has a lifetime.
    pub ttl: Option<u64>,
}

impl View for Slot {
    type V = SlotView;

    closed spec fn view(&self) -> SlotView {
        SlotView {
            key: self.key@,
            entry: self.entry@,
            stored_at: self.stored_at,
            ttl: self.ttl,
        }
    }
}

/// A store in memory.
#[derive(Debug)]
pub struct MemoryStore {
    slots: Vec<Slot>,
}

impl View for MemoryStore {
    type V = Seq<SlotView>;

    closed spec fn view(&self) -> Seq<SlotView> {
        Seq::new(self.slots@.len(), |i: int| self.slots@[i]@)
    }
}

/// The position of the first slot from `i` on that is kept under `key`; the
/// number of slots if there is none.
pub open spec fn slot_index(slots: Seq<SlotView>, key: Seq<char>, i: int) -> int
    decreases slots.len() - i,
{
    if i < 0 || i >= slots.len() {
        slots.len() as int
    } else if slots[i].key == key {
        i
    } else {
        slot_index(slots, key, i + 1)
    }
}

/// The slot that is kept under `key`, if there is one.
pub open spec fn stored(slots: Seq<SlotView>, key: Seq<char>) -> Option<SlotView> {
    let i = slot_index(slots, key, 0);
    if i < slots.len() {
        Some(slots[i])
    } else {
        None
    }
}

/// The entry is still there at the second `now`: fewer seconds went by
/// since it was written than it lasts.
pub open spec fn live(slot: SlotView, now: u64) -> bool {
    match slot.ttl {
        Some(t) => minus(now, slot.stored_at) < t,
        None => true,
    }
}

/// What a reader of `key` gets at the second `now`: the stored payload, and
/// the stored directives as old as the seconds since make them; nothing
/// where nothing is stored or the lifetime is over.
pub open spec fn read(slots: Seq<SlotView>, key: Seq<char>, now: u64) -> Option<EntryView> {
    match stored(slots, key) {
        Some(slot) => if live(slot, now) {
            Some(
                EntryView {
                    control: slot.entry.control.spec_aged(minus(now, slot.stored_at)),
                    data: slot.entry.data,
                },
            )
        } else {
            None
        },
        None => None,
    }
}

/// The slots that are not kept under `key`, in order.
pub open spec fn without_key(slots: Seq<SlotView>, key: Seq<char>) -> Seq<SlotView>
    decreases slots.len(),
{
    if slots.len() == 0 {
        Seq::empty()
    } else if slots.last().key == key {
        without_key(slots.drop_last(), key)
    } else {
        without_key(slots.drop_last(), key).push(slots.last())
    }
}

/// The slot that a write at the second `now` leaves.
pub open spec fn new_slot(key: Seq<char>, entry: EntryView, ttl: Option<u64>, now: u64) -> SlotView {
    SlotView { key, entry, stored_at: now, ttl }
}

/// The store after `entry` was written under `key`.
pub open spec fn with_entry(
    slots: Seq<SlotView>,
    key: Seq<char>,
    entry: EntryView,
    ttl: Option<u64>,
    now: u64,
) -> Seq<SlotView> {
    without_key(slots, key).push(new_slot(key, entry, ttl, now))
}

/// The store after the first `n` of `writes` were made, in order.
pub open spec fn with_entries(
    slots: Seq<SlotView>,
    writes: Seq<WriteView>,
    ttl: Option<u64>,
    now: u64,
    n: int,
) -> Seq<SlotView>
    decreases n,
{
    if n <= 0 || n > writes.len() {
        slots
    } else {
        with_entry(
            with_entries(slots, writes, ttl, now, n - 1),
            writes[n - 1].key,
            writes[n - 1].entry,
            ttl,
            now,
        )
    }
}

/// The keys of the first `n` slots that begin with `prefix`, in order.
pub open spec fn keys_with_prefix(slots: Seq<SlotView>, prefix: Seq<char>, n: int) -> Seq<Seq<char>>
    decreases n,
{
    if n <= 0 || n > slots.len() {
        Seq::empty()
    } else if begins_with(slots[n - 1].key, prefix) {
        keys_with_prefix(slots, prefix, n - 1).push(slots[n - 1].key)
    } else {
        keys_with_prefix(slots, prefix, n - 1)
    }
}

/// The slots whose key does not begin with `prefix`, in order.
pub open spec fn without_prefix(slots: Seq<SlotView>, prefix: Seq<char>) -> Seq<SlotView>
    decreases slots.len(),
{
    if slots.len() == 0 {
        Seq::empty()
    } else if begins_with(slots.last().key, prefix) {
        without_prefix(slots.drop_last(), prefix)
    } else {
        without_prefix(slots.drop_last(), prefix).push(slots.last())
    }
}

/// The store after the keys that begin with one of the first `n` of
/// `prefixes` were deleted.
pub open spec fn without_prefixes(slots: Seq<SlotView>, prefixes: Seq<Seq<char>>, n: int) -> Seq<
    SlotView,
>
    decreases n,
{
    if n <= 0 || n > prefixes.len() {
        slots
    } else {
        without_prefix(without_prefixes(slots, prefixes, n - 1), prefixes[n - 1])
    }
}

impl MemoryStore {
    /// An empty store.
    pub fn new() -> (store: MemoryStore)
        ensures
            store@ == Seq::<SlotView>::empty(),
    {
        let store = MemoryStore { slots: Vec::new() };
        assert(store@ =~= Seq::<SlotView>::empty());
        store
    }

    /// The number of entries, those whose lifetime is over among them.
    pub fn len(&self) -> (n: usize)
        ensures
            n == self@.len(),
    {
        self.slots.len()
    }

    /// Reads the entry under `key` at the second `now`.
    pub fn get(&self, key: &str, now: u64) -> (entry: Option<CacheEntry>)
        ensures
            entry_view(entry) == read(self@, key@, now),
    {
        let mut i: usize = 0;
        while i < self.slots.len()
            invariant
                i <= self.slots@.len(),
                slot_index(self@, key@, 0) == slot_index(self@, key@, i as int),
            decreases self.slots@.len() - i,
        {
            assert(self@[i as int] == self.slots@[i as int]@);
            let slot = &self.slots[i];
            if same_text(slot.key.as_str(), key) {
                let elapsed = if now >= slot.stored_at {
                    now - slot.stored_at
                } else {
                    0
                };
                let alive = match slot.ttl {
                    Some(t) => elapsed < t,
                    None => true,
                };
                if !alive {
                    return None;
                }
                return Some(
                    CacheEntry {
                        control: slot.entry.control.aged(elapsed),
                        data: slice_to_vec(slot.entry.data.as_slice()),
                    },
                );
            }
            i += 1;
        }
        None
    }

    /// Reads the entries under `keys` at the second `now`: one answer for
    /// each key, in the order of the keys.
    pub fn get_multiple(&self, keys: &Vec<String>, now: u64) -> (entries: Vec<Option<CacheEntry>>)
        ensures
            entries@.len() == keys@.len(),
            forall|i: int|
                0 <= i < keys@.len() ==> entry_view(#[trigger] entries@[i]) == read(
                    self@,
                    keys@[i]@,
                    now,
                ),
    {
        let mut entries: Vec<Option<CacheEntry>> = Vec::new();
        let mut i: usize = 0;
        while i < keys.len()
            invariant
                i <= keys@.len(),
                entries@.len() == i,
                forall|k: int|
                    0 <= k < i ==> entry_view(#[trigger] entries@[k]) == read(self@, keys@[k]@, now),
            decreases keys@.len() - i,
        {
            entries.push(self.get(keys[i].as_str(), now));
            i += 1;
        }
        entries
    }

    /// Deletes the entry under `key`. Says whether there was one.
    pub fn delete(&mut self, key: &str) -> (existed: bool)
        ensures
            final(self)@ == without_key(old(self)@, key@),
            existed == (stored(old(self)@, key@) is Some),
    {
        let ghost before = self@;
        let ghost j: int = 0;
        let mut existed = false;
        let mut i: usize = 0;
        assert(self@ =~= without_key(before.take(0), key@) + before.skip(0));
        while i < self.slots.len()
            invariant
                0 <= j <= before.len(),
                i == without_key(before.take(j), key@).len(),
                self@ == without_key(before.take(j), key@) + before.skip(j),
                existed == (slot_index(before.take(j), key@, 0) < j),
            decreases before.len() - j,
        {
            let ghost current = self@;
            proof {
                assert(current[i as int] == before.skip(j)[0]);
                assert(current[i as int] == self.slots@[i as int]@);
                let next = before.take(j + 1);
                assert(next.drop_last() =~= before.take(j));
                assert(next.last() == before[j]);
                lemma_slot_index_of_longer(before.take(j + 1), key@, 0);
            }
            if same_text(self.slots[i].key.as_str(), key) {
                self.slots.remove(i);
                existed = true;
                proof {
                    assert(self@ =~= current.remove(i as int));
                    assert(self@ =~= without_key(before.take(j + 1), key@) + before.skip(j + 1));
                }
            } else {
                proof {
                    assert(self@ =~= without_key(before.take(j + 1), key@) + before.skip(j + 1));
                }
                i += 1;
            }
            proof {
                j = j + 1;
            }
        }
        proof {
            assert(before.skip(j) =~= Seq::<SlotView>::empty());
            assert(before.take(j) =~= before);
            assert(self@ =~= without_key(before, key@));
        }
        existed
    }

    /// Writes `entry` under `key` at the second `now`, in place of what was
    /// there. With a lifetime of `ttl` seconds the entry is gone when they
    /// are over.
    pub fn insert(&mut self, key: String, entry: CacheEntry, ttl: Option<u64>, now: u64)
        ensures
            final(self)@ == with_entry(old(self)@, key@, entry@, ttl, now),
    {
        self.delete(key.as_str());
        let ghost middle = self@;
        self.slots.push(Slot { key, entry, stored_at: now, ttl });
        assert(self@ =~= middle.push(new_slot(key@, entry@, ttl, now)));
    }

    /// Makes the writes in order, all with the same lifetime.
    pub fn insert_multiple(&mut self, writes: Vec<StoreWrite>, ttl: Option<u64>, now: u64)
        ensures
            final(self)@ == with_entries(
                old(self)@,
                writes_view(writes@),
                ttl,
                now,
                writes@.len() as int,
            ),
    {
        let ghost all = writes@;
        let ghost w = writes_view(writes@);
        let ghost n: int = 0;
        for write in it: writes
            invariant
                it.seq() == all,
                w == writes_view(all),
                n == it.index(),
                self@ == with_entries(old(self)@, w, ttl, now, n),
        {
            assert(w[n] == write@);
            let StoreWrite { key, entry } = write;
            self.insert(key, entry, ttl, now);
            proof {
                n = n + 1;
            }
        }
    }

    /// Lists the keys that begin with `prefix`, in the order of the store.
    pub fn scan_prefix(&self, prefix: &str) -> (keys: Vec<String>)
        ensures
            texts(keys@) == keys_with_prefix(self@, prefix@, self@.len() as int),
    {
        let mut keys: Vec<String> = Vec::new();
        let mut i: usize = 0;
        assert(texts(keys@) =~= Seq::<Seq<char>>::empty());
        while i < self.slots.len()
            invariant
                i <= self.slots@.len(),
                texts(keys@) == keys_with_prefix(self@, prefix@, i as int),
            decreases self.slots@.len() - i,
        {
            assert(self@[i as int] == self.slots@[i as int]@);
            if text_starts_with(self.slots[i].key.as_str(), prefix) {
                let ghost before = keys@;
                keys.push(self.slots[i].key.clone());
                assert(texts(keys@) =~= texts(before).push(self@[i as int].key));
            }
            i += 1;
        }
        keys
    }

    /// Deletes every entry whose key begins with `prefix`. Returns how many
    /// there were.
    pub fn delete_prefix(&mut self, prefix: &str) -> (count: usize)
        ensures
            final(self)@ == without_prefix(old(self)@, prefix@),
            count == old(self)@.len() - final(self)@.len(),
    {
        let ghost before = self@;
        let ghost j: int = 0;
        let mut count: usize = 0;
        let mut i: usize = 0;
        assert(before.len() == self.slots.len());
        assert(self@ =~= without_prefix(before.take(0), prefix@) + before.skip(0));
        while i < self.slots.len()
            invariant
                0 <= j <= before.len(),
                before.len() <= usize::MAX,
                i == without_prefix(before.take(j), prefix@).len(),
                self@ == without_prefix(before.take(j), prefix@) + before.skip(j),
                count == j - i,
            decreases before.len() - j,
        {
            let ghost current = self@;
            proof {
                assert(current[i as int] == before.skip(j)[0]);
                assert(current[i as int] == self.slots@[i as int]@);
                let next = before.take(j + 1);
                assert(next.drop_last() =~= before.take(j));
                assert(next.last() == before[j]);
            }
            if text_starts_with(self.slots[i].key.as_str(), prefix) {
                self.slots.remove(i);
                count += 1;
                proof {
                    assert(self@ =~= current.remove(i as int));
                    assert(self@ =~= without_prefix(before.take(j + 1), prefix@) + before.skip(j + 1));
                }
            } else {
                proof {
                    assert(self@ =~= without_prefix(before.take(j + 1), prefix@) + before.skip(j + 1));
                }
                i += 1;
            }
            proof {
                j = j + 1;
            }
        }
        proof {
            assert(before.skip(j) =~= Seq::<SlotView>::empty());
            assert(before.take(j) =~= before);
            assert(self@ =~= without_prefix(before, prefix@));
        }
        count
    }

    /// Deletes every entry whose key begins with one of `prefixes`. Returns
    /// how many there were.
    pub fn invalidate(&mut self, prefixes: &Vec<String>) -> (count: usize)
        ensures
            final(self)@ == without_prefixes(old(self)@, texts(prefixes@), prefixes@.len() as int),
            count == old(self)@.len() - final(self)@.len(),
    {
        let mut count: usize = 0;
        let mut i: usize = 0;
        let ghost p = texts(prefixes@);
        assert(self@.len() == self.slots.len());
        while i < prefixes.len()
            invariant
                i <= prefixes@.len(),
                p == texts(prefixes@),
                self@ == without_prefixes(old(self)@, p, i as int),
                count == old(self)@.len() - self@.len(),
                old(self)@.len() <= usize::MAX,
            decreases prefixes@.len() - i,
        {
            assert(p[i as int] == prefixes@[i as int]@);
            let deleted = self.delete_prefix(prefixes[i].as_str());
            count += deleted;
            i += 1;
        }
        count
    }
}

/// The first slot under a key in a list is the first in every longer list.
pub proof fn lemma_slot_index_of_longer(slots: Seq<SlotView>, key: Seq<char>, i: int)
    requires
        0 <= i,
        slots.len() > 0,
    ensures
        slot_index(slots.drop_last(), key, i) < slots.len() - 1 ==> slot_index(slots, key, i)
            == slot_index(slots.drop_last(), key, i),
        slot_index(slots.drop_last(), key, i) >= slots.len() - 1 ==> slot_index(slots, key, i) == (if i
            < slots.len() && slots.last().key == key {
            slots.len() - 1
        } else {
            slots.len() as int
        }),
    decreases slots.len() - i,
{
    if i < slots.len() - 1 {
        assert(slots.drop_last()[i] == slots[i]);
        if slots[i].key != key {
            lemma_slot_index_of_longer(slots, key, i + 1);
        }
    } else if i == slots.len() - 1 {
        if slots[i].key != key {
            lemma_slot_index_of_longer(slots, key, i + 1);
        }
    }
}

/// No slot is kept under `key`.
pub open spec fn holds_no(slots: Seq<SlotView>, key: Seq<char>) -> bool {
    forall|i: int| 0 <= i < slots.len() ==> (#[trigger] slots[i]).key != key
}

/// Where no slot is kept under a key, nothing is stored under it.
pub proof fn lemma_nothing_stored(slots: Seq<SlotView>, key: Seq<char>, i: int)
    requires
        holds_no(slots, key),
        0 <= i,
    ensures
        slot_index(slots, key, i) >= slots.len(),
    decreases slots.len() - i,
{
    if i < slots.len() {
        assert(slots[i].key != key);
        lemma_nothing_stored(slots, key, i + 1);
    }
}

/// After the slots of a key were taken out, none is kept under it.
pub proof fn lemma_without_key_holds_no(slots: Seq<SlotView>, key: Seq<char>)
    ensures
        holds_no(without_key(slots, key), key),
    decreases slots.len(),
{
    if slots.len() > 0 {
        lemma_without_key_holds_no(slots.drop_last(), key);
    }
}

/// What was written is what is read, as long as its lifetime lasts: the
/// payload is the same, and the directives are the same but for the seconds
/// that went by since the write. Read in the second of the write, the entry
/// is the one that was written.
pub proof fn lemma_read_after_write(
    slots: Seq<SlotView>,
    key: Seq<char>,
    entry: EntryView,
    ttl: Option<u64>,
    now: u64,
    later: u64,
)
    requires
        now <= later,
        match ttl {
            Some(t) => later - now < t,
            None => true,
        },
    ensures
        read(with_entry(slots, key, entry, ttl, now), key, later) == Some(
            EntryView { control: entry.control.spec_aged((later - now) as u64), data: entry.data },
        ),
        later == now ==> read(with_entry(slots, key, entry, ttl, now), key, later) == Some(entry),
{
    let rest = without_key(slots, key);
    let after = with_entry(slots, key, entry, ttl, now);
    lemma_without_key_holds_no(slots, key);
    lemma_nothing_stored(rest, key, 0);
    assert(after.drop_last() =~= rest);
    lemma_slot_index_of_longer(after, key, 0);
    assert(slot_index(after, key, 0) == after.len() - 1);
    assert(stored(after, key) == Some(new_slot(key, entry, ttl, now)));
}

/// An entry whose lifetime is over is not read any more.
pub proof fn lemma_expired_is_gone(
    slots: Seq<SlotView>,
    key: Seq<char>,
    entry: EntryView,
    ttl: u64,
    now: u64,
    later: u64,
)
    requires
        later - now >= ttl,
    ensures
        read(with_entry(slots, key, entry, Some(ttl), now), key, later) is None,
{
    let rest = without_key(slots, key);
    let after = with_entry(slots, key, entry, Some(ttl), now);
    lemma_without_key_holds_no(slots, key);
    lemma_nothing_stored(rest, key, 0);
    assert(after.drop_last() =~= rest);
    lemma_slot_index_of_longer(after, key, 0);
    assert(stored(after, key) == Some(new_slot(key, entry, Some(ttl), now)));
}

/// Every slot that is left after a deletion by prefix was there before, and
/// its key does not begin with the prefix.
pub proof fn lemma_without_prefix_slots(slots: Seq<SlotView>, prefix: Seq<char>)
    ensures
        forall|i: int|
            0 <= i < without_prefix(slots, prefix).len() ==> {
                &&& !begins_with((#[trigger] without_prefix(slots, prefix)[i]).key, prefix)
                &&& slots.contains(without_prefix(slots, prefix)[i])
            },
    decreases slots.len(),
{
    if slots.len() > 0 {
        lemma_without_prefix_slots(slots.drop_last(), prefix);
        let rest = without_prefix(slots.drop_last(), prefix);
        assert forall|i: int| 0 <= i < without_prefix(slots, prefix).len() implies {
            &&& !begins_with((#[trigger] without_prefix(slots, prefix)[i]).key, prefix)
            &&& slots.contains(without_prefix(slots, prefix)[i])
        } by {
            if i < rest.len() {
                let x = rest[i];
                assert(slots.drop_last().contains(x));
                let j = choose|j: int| 0 <= j < slots.drop_last().len() && slots.drop_last()[j] == x;
                assert(slots[j] == x);
            } else {
                assert(slots[slots.len() - 1] == slots.last());
            }
        }
    }
}

/// No key that begins with `prefix` is left in any slot that the
/// deletions leave, if none was there before the last `n` deletions or the
/// prefix is among them.
proof fn lemma_prefix_stays_gone(
    slots: Seq<SlotView>,
    prefixes: Seq<Seq<char>>,
    n: int,
    k: int,
    key: Seq<char>,
)
    requires
        0 <= k < n <= prefixes.len(),
        begins_with(key, prefixes[k]),
    ensures
        holds_no(without_prefixes(slots, prefixes, n), key),
    decreases n,
{
    let before = without_prefixes(slots, prefixes, n - 1);
    let after = without_prefixes(slots, prefixes, n);
    lemma_without_prefix_slots(before, prefixes[n - 1]);
    if k < n - 1 {
        lemma_prefix_stays_gone(slots, prefixes, n - 1, k, key);
        assert forall|i: int| 0 <= i < after.len() implies (#[trigger] after[i]).key != key by {
            assert(before.contains(after[i]));
            let j = choose|j: int| 0 <= j < before.len() && before[j] == after[i];
            assert(before[j].key != key);
        }
    } else {
        assert forall|i: int| 0 <= i < after.len() implies (#[trigger] after[i]).key != key by {
            assert(!begins_with(after[i].key, prefixes[k]));
        }
    }
}

/// After an invalidation, no key that begins with one of its prefixes gives
/// an entry, at whatever time it is read.
pub proof fn lemma_invalidated_is_gone(
    slots: Seq<SlotView>,
    prefixes: Seq<Seq<char>>,
    key: Seq<char>,
    now: u64,
)
    requires
        crate::invalidation::selected(key, prefixes),
    ensures
        read(without_prefixes(slots, prefixes, prefixes.len() as int), key, now) is None,
{
    let k = choose|k: int| 0 <= k < prefixes.len() && begins_with(key, #[trigger] prefixes[k]);
    lemma_prefix_stays_gone(slots, prefixes, prefixes.len() as int, k, key);
    lemma_nothing_stored(without_prefixes(slots, prefixes, prefixes.len() as int), key, 0);
}

/// Where the directives of a response forbid storing, merging it leaves
/// the store as it is.
pub proof fn lemma_no_store_leaves_store(
    slots: Seq<SlotView>,
    result: Seq<crate::entity::IntermediateView>,
    entities: Seq<Seq<u8>>,
    errors: Seq<crate::entry::ErrorView>,
    control: CacheControl,
    update_key_private: Option<Seq<char>>,
    should_cache_private: bool,
    ttl: Option<u64>,
    now: u64,
)
    requires
        control.no_store,
    ensures
        ({
            let w = crate::entity::writes(
                result,
                entities,
                errors,
                control,
                update_key_private,
                should_cache_private,
                result.len() as int,
            );
            with_entries(slots, w, ttl, now, w.len() as int) == slots
        }),
{
    crate::entity::lemma_no_store_writes_nothing(
        result,
        entities,
        errors,
        control,
        update_key_private,
        should_cache_private,
        result.len() as int,
    );
}

/// Where a response is private and no user's scope is at hand, merging it
/// leaves the store as it is.
pub proof fn lemma_private_without_scope_leaves_store(
    slots: Seq<SlotView>,
    result: Seq<crate::entity::IntermediateView>,
    entities: Seq<Seq<u8>>,
    errors: Seq<crate::entry::ErrorView>,
    control: CacheControl,
    is_known_private: bool,
    ttl: Option<u64>,
    now: u64,
)
    requires
        control.private,
    ensures
        ({
            let w = crate::entity::writes(
                result,
                entities,
                errors,
                control,
                crate::entity::key_update(is_known_private, control, None),
                crate::entity::may_cache_private(control, None),
                result.len() as int,
            );
            with_entries(slots, w, ttl, now, w.len() as int) == slots
        }),
{
    crate::entity::lemma_private_without_scope_writes_nothing(
        result,
        entities,
        errors,
        control,
        is_known_private,
        result.len() as int,
    );
}

/// After the invalidation of a type of a subgraph, the store gives no entry
/// for any entity of that type and for any root query on that type in that
/// subgraph, whatever the query, the variables and the user's scope are, and
/// at whatever time it is asked.
pub proof fn lemma_invalidated_type_is_gone(
    slots: Seq<SlotView>,
    target: crate::invalidation::TargetView,
    fp: crate::request::Fingerprint,
    r: crate::request::RepresentationView,
    typename: Seq<char>,
    is_known_private: bool,
    private_id: Option<Seq<char>>,
    now: u64,
)
    requires
        target.subgraph == fp.subgraph_name,
        target.typename == Some(typename),
        target.entity is None,
        target.query_hash is None,
        r.typename == crate::request::TypenameView::Text(typename),
    ensures
        ({
            let prefixes = crate::invalidation::prefixes_of(target);
            let after = without_prefixes(slots, prefixes, prefixes.len() as int);
            &&& read(after, crate::keys::entity_key(fp, r, is_known_private, private_id), now) is None
            &&& read(
                after,
                crate::keys::root_key(fp, Some(typename), is_known_private, private_id),
                now,
            ) is None
        }),
{
    let prefixes = crate::invalidation::prefixes_of(target);
    crate::invalidation::lemma_type_request_selects_keys(
        target,
        fp,
        r,
        typename,
        is_known_private,
        private_id,
    );
    lemma_invalidated_is_gone(
        slots,
        prefixes,
        crate::keys::entity_key(fp, r, is_known_private, private_id),
        now,
    );
    lemma_invalidated_is_gone(
        slots,
        prefixes,
        crate::keys::root_key(fp, Some(typename), is_known_private, private_id),
        now,
    );
}

} // verus!
