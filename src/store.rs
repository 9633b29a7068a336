use vstd::prelude::*;

use crate::entry::{
    byte_len, CreateJournalEntry, DeleteJournalEntry, JournalEntryState, JournalEntryView,
    JournalError, UpdateJournalEntry, MAX_MESSAGE_LEN, MAX_TITLE_LEN,
};
use crate::key::{bytes_equal, derive_key, derived_key};

verus! {

/// The abstract contents of a store: entries by key.
pub type StoreMap = Map<Seq<u8>, JournalEntryView>;

/// Every entry sits under its own key and is well formed.
pub open spec fn consistent(m: StoreMap) -> bool {
    forall|k: Seq<u8>| #[trigger] m.contains_key(k) ==> m[k].key() == k && m[k].well_formed()
}

/// Whether a title and a message fit their bounds.
pub open spec fn fields_fit(title: Seq<char>, message: Seq<char>) -> bool {
    byte_len(title) <= MAX_TITLE_LEN && byte_len(message) <= MAX_MESSAGE_LEN
}

/// Outcome of creating the entry (`title`, `owner`) with `message` in `m`.
pub open spec fn create_spec(
    m: StoreMap,
    signed: bool,
    owner: Seq<u8>,
    title: Seq<char>,
    message: Seq<char>,
) -> Result<StoreMap, JournalError> {
    let k = derived_key(title, owner);
    if !signed {
        Err(JournalError::Unauthenticated)
    } else if !fields_fit(title, message) {
        Err(JournalError::FieldTooLong)
    } else if m.contains_key(k) {
        Err(JournalError::AlreadyExists)
    } else {
        Ok(m.insert(k, JournalEntryView { owner, title, message }))
    }
}

/// Outcome of replacing the message of the entry (`title`, `owner`) in `m`.
pub open spec fn update_spec(
    m: StoreMap,
    signed: bool,
    owner: Seq<u8>,
    title: Seq<char>,
    message: Seq<char>,
) -> Result<StoreMap, JournalError> {
    let k = derived_key(title, owner);
    if !signed {
        Err(JournalError::Unauthenticated)
    } else if !m.contains_key(k) {
        Err(JournalError::NotFound)
    } else if byte_len(message) > MAX_MESSAGE_LEN {
        Err(JournalError::FieldTooLong)
    } else if m[k].owner != owner {
        Err(JournalError::Unauthorized)
    } else {
        Ok(m.insert(k, JournalEntryView { owner: m[k].owner, title: m[k].title, message }))
    }
}

/// Outcome of deleting the entry (`title`, `owner`) from `m`.
pub open spec fn delete_spec(m: StoreMap, signed: bool, owner: Seq<u8>, title: Seq<char>) -> Result<
    StoreMap,
    JournalError,
> {
    let k = derived_key(title, owner);
    if !signed {
        Err(JournalError::Unauthenticated)
    } else if !m.contains_key(k) {
        Err(JournalError::NotFound)
    } else if m[k].owner != owner {
        Err(JournalError::Unauthorized)
    } else {
        Ok(m.remove(k))
    }
}

/// A storage slot: an entry and the key it was stored under.
struct Slot {
    address: Vec<u8>,
    entry: JournalEntryState,
}

spec fn has_address(s: Seq<Slot>, k: Seq<u8>) -> bool {
    exists|i: int| 0 <= i < s.len() && (#[trigger] s[i]).address@ == k
}

spec fn slots_map(s: Seq<Slot>) -> StoreMap {
    Map::new(
        |k: Seq<u8>| has_address(s, k),
        |k: Seq<u8>| s[choose|i: int| 0 <= i < s.len() && (#[trigger] s[i]).address@ == k].entry@,
    )
}

spec fn addresses_unique(s: Seq<Slot>) -> bool {
    forall|i: int, j: int|
        0 <= i < s.len() && 0 <= j < s.len() && i != j ==> (#[trigger] s[i]).address@ != (
        #[trigger] s[j]).address@
}

spec fn slots_sound(s: Seq<Slot>) -> bool {
    forall|i: int|
        0 <= i < s.len() ==> (#[trigger] s[i]).address@ == s[i].entry@.key()
            && s[i].entry@.well_formed()
}

proof fn lemma_slot_lookup(s: Seq<Slot>, i: int)
    requires
        addresses_unique(s),
        0 <= i < s.len(),
    ensures
        slots_map(s).contains_key(s[i].address@),
        slots_map(s)[s[i].address@] == s[i].entry@,
{
    let k = s[i].address@;
    assert(has_address(s, k));
    let j = choose|j: int| 0 <= j < s.len() && (#[trigger] s[j]).address@ == k;
    assert(j == i);
}

proof fn lemma_slots_push(s: Seq<Slot>, x: Slot)
    requires
        addresses_unique(s),
        !slots_map(s).contains_key(x.address@),
    ensures
        addresses_unique(s.push(x)),
        slots_map(s.push(x)) == slots_map(s).insert(x.address@, x.entry@),
{
    let t = s.push(x);
    assert forall|i: int, j: int|
        0 <= i < t.len() && 0 <= j < t.len() && i != j implies (#[trigger] t[i]).address@ != (
        #[trigger] t[j]).address@ by {
        if i < s.len() && j == s.len() {
            assert(has_address(s, t[i].address@));
        } else if j < s.len() && i == s.len() {
            assert(has_address(s, t[j].address@));
        }
    }
    let m = slots_map(s).insert(x.address@, x.entry@);
    assert forall|k: Seq<u8>| #[trigger] slots_map(t).contains_key(k) <==> m.contains_key(k) by {
        if has_address(t, k) {
            let i = choose|i: int| 0 <= i < t.len() && (#[trigger] t[i]).address@ == k;
            if i < s.len() {
                assert(s[i] == t[i]);
                assert(has_address(s, k));
            }
        }
        if has_address(s, k) {
            let i = choose|i: int| 0 <= i < s.len() && (#[trigger] s[i]).address@ == k;
            assert(t[i] == s[i]);
        }
        if k == x.address@ {
            assert(t[s.len() as int] == x);
        }
    }
    assert forall|k: Seq<u8>| #[trigger] slots_map(t).contains_key(k) implies slots_map(t)[k]
        == m[k] by {
        let i = choose|i: int| 0 <= i < t.len() && (#[trigger] t[i]).address@ == k;
        lemma_slot_lookup(t, i);
        if i < s.len() {
            assert(s[i] == t[i]);
            lemma_slot_lookup(s, i);
        }
    }
    assert(slots_map(t) =~= m);
}

proof fn lemma_slots_replace(s: Seq<Slot>, i: int, x: Slot)
    requires
        addresses_unique(s),
        0 <= i < s.len(),
        x.address@ == s[i].address@,
    ensures
        addresses_unique(s.update(i, x)),
        slots_map(s.update(i, x)) == slots_map(s).insert(x.address@, x.entry@),
{
    let t = s.update(i, x);
    assert forall|a: int, b: int|
        0 <= a < t.len() && 0 <= b < t.len() && a != b implies (#[trigger] t[a]).address@ != (
        #[trigger] t[b]).address@ by {
        assert(t[a].address@ == s[a].address@);
        assert(t[b].address@ == s[b].address@);
    }
    let m = slots_map(s).insert(x.address@, x.entry@);
    lemma_slot_lookup(s, i);
    assert forall|k: Seq<u8>| #[trigger] slots_map(t).contains_key(k) <==> m.contains_key(k) by {
        if has_address(t, k) {
            let a = choose|a: int| 0 <= a < t.len() && (#[trigger] t[a]).address@ == k;
            assert(s[a].address@ == k);
            assert(has_address(s, k));
        }
        if has_address(s, k) {
            let a = choose|a: int| 0 <= a < s.len() && (#[trigger] s[a]).address@ == k;
            assert(t[a].address@ == k);
        }
    }
    assert forall|k: Seq<u8>| #[trigger] slots_map(t).contains_key(k) implies slots_map(t)[k]
        == m[k] by {
        let a = choose|a: int| 0 <= a < t.len() && (#[trigger] t[a]).address@ == k;
        lemma_slot_lookup(t, a);
        if a != i {
            assert(s[a] == t[a]);
            lemma_slot_lookup(s, a);
        }
    }
    assert(slots_map(t) =~= m);
}

proof fn lemma_slots_remove(s: Seq<Slot>, i: int)
    requires
        addresses_unique(s),
        0 <= i < s.len(),
    ensures
        addresses_unique(s.remove(i)),
        slots_map(s.remove(i)) == slots_map(s).remove(s[i].address@),
{
    let t = s.remove(i);
    let gone = s[i].address@;
    assert forall|a: int, b: int|
        0 <= a < t.len() && 0 <= b < t.len() && a != b implies (#[trigger] t[a]).address@ != (
        #[trigger] t[b]).address@ by {
        let sa = if a < i { a } else { a + 1 };
        let sb = if b < i { b } else { b + 1 };
        assert(t[a] == s[sa]);
        assert(t[b] == s[sb]);
    }
    let m = slots_map(s).remove(gone);
    lemma_slot_lookup(s, i);
    assert forall|k: Seq<u8>| #[trigger] slots_map(t).contains_key(k) <==> m.contains_key(k) by {
        if has_address(t, k) {
            let a = choose|a: int| 0 <= a < t.len() && (#[trigger] t[a]).address@ == k;
            let sa = if a < i { a } else { a + 1 };
            assert(t[a] == s[sa]);
            assert(has_address(s, k));
        }
        if has_address(s, k) && k != gone {
            let a = choose|a: int| 0 <= a < s.len() && (#[trigger] s[a]).address@ == k;
            let ta = if a < i { a } else { a - 1 };
            assert(t[ta] == s[a]);
        }
    }
    assert forall|k: Seq<u8>| #[trigger] slots_map(t).contains_key(k) implies slots_map(t)[k]
        == m[k] by {
        let a = choose|a: int| 0 <= a < t.len() && (#[trigger] t[a]).address@ == k;
        let sa = if a < i { a } else { a + 1 };
        assert(t[a] == s[sa]);
        lemma_slot_lookup(t, a);
        lemma_slot_lookup(s, sa);
    }
    assert(slots_map(t) =~= m);
}

/// An in-memory store of journal entries, keyed by their derived keys.
pub struct JournalStore {
    slots: Vec<Slot>,
}

impl View for JournalStore {
    type V = StoreMap;

    closed spec fn view(&self) -> StoreMap {
        slots_map(self.slots@)
    }
}

impl JournalStore {
    /// The store's internal invariant.
    pub closed spec fn wf(&self) -> bool {
        addresses_unique(self.slots@) && slots_sound(self.slots@)
    }

    /// A well-formed store holds only consistent contents.
    pub proof fn lemma_wf_consistent(&self)
        requires
            self.wf(),
        ensures
            consistent(self@),
    {
        assert forall|k: Seq<u8>| #[trigger] self@.contains_key(k) implies self@[k].key() == k
            && self@[k].well_formed() by {
            let s = self.slots@;
            let i = choose|i: int| 0 <= i < s.len() && (#[trigger] s[i]).address@ == k;
            lemma_slot_lookup(s, i);
        }
    }

    /// An empty store.
    pub fn new() -> (r: JournalStore)
        ensures
            r.wf(),
            r@ == Map::<Seq<u8>, JournalEntryView>::empty(),
    {
        let r = JournalStore { slots: Vec::new() };
        assert(r@ =~= Map::<Seq<u8>, JournalEntryView>::empty());
        r
    }

    /// Number of stored entries.
    pub fn len(&self) -> (r: usize)
        requires
            self.wf(),
        ensures
            r == self@.len(),
    {
        proof {
            self.lemma_len();
        }
        self.slots.len()
    }

    proof fn lemma_len(&self)
        requires
            self.wf(),
        ensures
            self@.len() == self.slots@.len(),
        decreases self.slots@.len(),
    {
        let s = self.slots@;
        let keys = Seq::new(s.len(), |i: int| s[i].address@);
        assert forall|i: int, j: int|
            0 <= i < keys.len() && 0 <= j < keys.len() && i != j implies keys[i] != keys[j] by {
            assert(keys[i] == s[i].address@);
            assert(keys[j] == s[j].address@);
        }
        assert(keys.no_duplicates());
        assert forall|k: Seq<u8>| #[trigger] self@.dom().contains(k) <==> keys.to_set().contains(k)
            by {
            if has_address(s, k) {
                let i = choose|i: int| 0 <= i < s.len() && (#[trigger] s[i]).address@ == k;
                assert(keys[i] == k);
            }
            if keys.contains(k) {
                let i = choose|i: int| 0 <= i < keys.len() && keys[i] == k;
                assert(s[i].address@ == k);
            }
        }
        assert(self@.dom() =~= keys.to_set());
        keys.unique_seq_to_set();
    }

    /// Index of the slot stored under `address`, if any.
    fn find_slot(&self, address: &Vec<u8>) -> (r: Option<usize>)
        requires
            self.wf(),
        ensures
            match r {
                Some(i) => i < self.slots@.len() && self.slots@[i as int].address@ == address@,
                None => !self@.contains_key(address@),
            },
    {
        let mut i: usize = 0;
        while i < self.slots.len()
            invariant
                0 <= i <= self.slots@.len(),
                forall|j: int| 0 <= j < i ==> (#[trigger] self.slots@[j]).address@ != address@,
            decreases self.slots@.len() - i,
        {
            if bytes_equal(self.slots[i].address.as_slice(), address.as_slice()) {
                return Some(i);
            }
            i = i + 1;
        }
        None
    }

    /// The entry stored under `address`, if any.
    pub fn read(&self, address: &Vec<u8>) -> (r: Option<&JournalEntryState>)
        requires
            self.wf(),
        ensures
            r.is_some() == self@.contains_key(address@),
            r matches Some(e) ==> e@ == self@[address@],
    {
        match self.find_slot(address) {
            Some(i) => {
                proof {
                    lemma_slot_lookup(self.slots@, i as int);
                }
                Some(&self.slots[i].entry)
            },
            None => None,
        }
    }
}

/// Creates the entry (`title`, caller) holding `message`.
pub fn create_journal_entry(
    store: &mut JournalStore,
    ctx: &CreateJournalEntry,
    title: String,
    message: String,
) -> (r: Result<(), JournalError>)
    requires
        old(store).wf(),
    ensures
        final(store).wf(),
        match create_spec(old(store)@, ctx.owner_is_signer, ctx.owner@, title@, message@) {
            Ok(m) => r is Ok && final(store)@ == m,
            Err(e) => r == Err::<(), JournalError>(e) && final(store)@ == old(store)@,
        },
{
    if !ctx.owner_is_signer {
        return Err(JournalError::Unauthenticated);
    }
    let title_len = title.as_str().as_bytes().len();
    let message_len = message.as_str().as_bytes().len();
    if title_len > MAX_TITLE_LEN || message_len > MAX_MESSAGE_LEN {
        return Err(JournalError::FieldTooLong);
    }
    let address = derive_key(title.as_str(), &ctx.owner);
    match store.find_slot(&address) {
        Some(i) => {
            proof {
                lemma_slot_lookup(store.slots@, i as int);
            }
            Err(JournalError::AlreadyExists)
        },
        None => {
            let slot = Slot { address, entry: JournalEntryState { owner: ctx.owner, title, message } };
            proof {
                lemma_slots_push(store.slots@, slot);
            }
            store.slots.push(slot);
            Ok(())
        },
    }
}

/// Replaces the message of the caller's entry titled `title`.
pub fn update_journal_entry(
    store: &mut JournalStore,
    ctx: &UpdateJournalEntry,
    title: String,
    message: String,
) -> (r: Result<(), JournalError>)
    requires
        old(store).wf(),
    ensures
        final(store).wf(),
        match update_spec(old(store)@, ctx.owner_is_signer, ctx.owner@, title@, message@) {
            Ok(m) => r is Ok && final(store)@ == m,
            Err(e) => r == Err::<(), JournalError>(e) && final(store)@ == old(store)@,
        },
{
    if !ctx.owner_is_signer {
        return Err(JournalError::Unauthenticated);
    }
    let address = derive_key(title.as_str(), &ctx.owner);
    let i = match store.find_slot(&address) {
        Some(i) => i,
        None => {
            return Err(JournalError::NotFound);
        },
    };
    proof {
        lemma_slot_lookup(store.slots@, i as int);
    }
    if message.as_str().as_bytes().len() > MAX_MESSAGE_LEN {
        return Err(JournalError::FieldTooLong);
    }
    if !store.slots[i].entry.owner.same_as(&ctx.owner) {
        return Err(JournalError::Unauthorized);
    }
    let ghost before = store.slots@;
    let mut slot = store.slots.remove(i);
    slot.entry.message = message;
    proof {
        assert(before.remove(i as int).insert(i as int, slot) =~= before.update(i as int, slot));
        lemma_slots_replace(before, i as int, slot);
    }
    store.slots.insert(i, slot);
    Ok(())
}

/// Deletes the caller's entry titled `title`.
pub fn delete_journal_entry(store: &mut JournalStore, ctx: &DeleteJournalEntry, title: String) -> (r:
    Result<(), JournalError>)
    requires
        old(store).wf(),
    ensures
        final(store).wf(),
        match delete_spec(old(store)@, ctx.owner_is_signer, ctx.owner@, title@) {
            Ok(m) => r is Ok && final(store)@ == m,
            Err(e) => r == Err::<(), JournalError>(e) && final(store)@ == old(store)@,
        },
{
    if !ctx.owner_is_signer {
        return Err(JournalError::Unauthenticated);
    }
    let address = derive_key(title.as_str(), &ctx.owner);
    let i = match store.find_slot(&address) {
        Some(i) => i,
        None => {
            return Err(JournalError::NotFound);
        },
    };
    proof {
        lemma_slot_lookup(store.slots@, i as int);
    }
    if !store.slots[i].entry.owner.same_as(&ctx.owner) {
        return Err(JournalError::Unauthorized);
    }
    proof {
        lemma_slots_remove(store.slots@, i as int);
    }
    store.slots.remove(i);
    Ok(())
}

} // verus!
