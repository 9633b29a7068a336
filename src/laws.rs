//! Properties that relate several operations on a store.

use vstd::prelude::*;

use crate::entry::{byte_len, JournalEntryView, JournalError, MAX_MESSAGE_LEN, MAX_TITLE_LEN};
use crate::key::{derived_key, lemma_derived_key_unique, PUBKEY_LEN};
use crate::store::{consistent, create_spec, delete_spec, fields_fit, update_spec, StoreMap};

verus! {

/// `m2` holds under `k` exactly what `m` holds there.
pub open spec fn unchanged_at(m: StoreMap, m2: StoreMap, k: Seq<u8>) -> bool {
    &&& m2.contains_key(k) == m.contains_key(k)
    &&& m.contains_key(k) ==> m2[k] == m[k]
}

/// A signed create of a fresh key with fields in bounds succeeds, and the
/// entry then stored under the derived key is exactly the one created.
pub proof fn lemma_create_then_read(
    m: StoreMap,
    owner: Seq<u8>,
    title: Seq<char>,
    message: Seq<char>,
)
    requires
        fields_fit(title, message),
        !m.contains_key(derived_key(title, owner)),
    ensures
        create_spec(m, true, owner, title, message) matches Ok(m1) && m1.contains_key(
            derived_key(title, owner),
        ) && m1[derived_key(title, owner)] == (JournalEntryView { owner, title, message }),
{
}

/// Creating the same (title, owner) twice fails the second time with
/// `AlreadyExists`, and the entry of the first call stays as it was.
pub proof fn lemma_duplicate_create_rejected(
    m: StoreMap,
    owner: Seq<u8>,
    title: Seq<char>,
    first: Seq<char>,
    second: Seq<char>,
)
    requires
        create_spec(m, true, owner, title, first) is Ok,
        fields_fit(title, second),
    ensures
        create_spec(m, true, owner, title, first) matches Ok(m1) && create_spec(
            m1,
            true,
            owner,
            title,
            second,
        ) == Err::<StoreMap, JournalError>(JournalError::AlreadyExists) && m1[derived_key(
            title,
            owner,
        )].message == first,
{
}

/// A successful update changes only the message: the entry keeps the title
/// and the owner it was looked up by.
pub proof fn lemma_update_preserves_key_fields(
    m: StoreMap,
    owner: Seq<u8>,
    title: Seq<char>,
    message: Seq<char>,
)
    requires
        consistent(m),
        owner.len() == PUBKEY_LEN,
        update_spec(m, true, owner, title, message) is Ok,
    ensures
        update_spec(m, true, owner, title, message) matches Ok(m2) && m2[derived_key(title, owner)]
            == (JournalEntryView { owner, title, message }) && m2.dom() == m.dom(),
{
    let k = derived_key(title, owner);
    lemma_derived_key_unique(m[k].title, m[k].owner, title, owner);
    assert(m.insert(k, JournalEntryView { owner: m[k].owner, title: m[k].title, message }).dom()
        =~= m.dom());
}

/// Creating then updating an entry leaves the created title and owner with
/// the new message.
pub proof fn lemma_create_then_update(
    m: StoreMap,
    owner: Seq<u8>,
    title: Seq<char>,
    message: Seq<char>,
    new_message: Seq<char>,
)
    requires
        create_spec(m, true, owner, title, message) is Ok,
        byte_len(new_message) <= MAX_MESSAGE_LEN,
    ensures
        create_spec(m, true, owner, title, message) matches Ok(m1) && update_spec(
            m1,
            true,
            owner,
            title,
            new_message,
        ) matches Ok(m2) && m2[derived_key(title, owner)] == (JournalEntryView {
            owner,
            title,
            message: new_message,
        }),
{
}

/// Operations by one owner never touch the entry of another owner with the
/// same title: whatever `b` creates, updates or deletes, the key of `a` holds
/// what it held before.
pub proof fn lemma_owners_isolated(
    m: StoreMap,
    title: Seq<char>,
    a: Seq<u8>,
    b: Seq<u8>,
    message: Seq<char>,
)
    requires
        a.len() == PUBKEY_LEN,
        b.len() == PUBKEY_LEN,
        a != b,
    ensures
        derived_key(title, a) != derived_key(title, b),
        create_spec(m, true, b, title, message) matches Ok(m2) ==> unchanged_at(
            m,
            m2,
            derived_key(title, a),
        ),
        update_spec(m, true, b, title, message) matches Ok(m2) ==> unchanged_at(
            m,
            m2,
            derived_key(title, a),
        ),
        delete_spec(m, true, b, title) matches Ok(m2) ==> unchanged_at(
            m,
            m2,
            derived_key(title, a),
        ),
{
    lemma_derived_key_unique(title, a, title, b);
}

/// After a successful delete, updating the same (title, owner) fails with
/// `NotFound`.
pub proof fn lemma_delete_then_not_found(
    m: StoreMap,
    owner: Seq<u8>,
    title: Seq<char>,
    message: Seq<char>,
)
    requires
        delete_spec(m, true, owner, title) is Ok,
    ensures
        delete_spec(m, true, owner, title) matches Ok(m2) && update_spec(
            m2,
            true,
            owner,
            title,
            message,
        ) == Err::<StoreMap, JournalError>(JournalError::NotFound),
{
}

/// A title over its bound makes a signed create fail with `FieldTooLong`; a
/// message over its bound makes a signed update of an existing entry fail
/// with `FieldTooLong`.
pub proof fn lemma_bounds_enforced(
    m: StoreMap,
    owner: Seq<u8>,
    title: Seq<char>,
    message: Seq<char>,
)
    ensures
        byte_len(title) > MAX_TITLE_LEN ==> create_spec(m, true, owner, title, message) == Err::<
            StoreMap,
            JournalError,
        >(JournalError::FieldTooLong),
        m.contains_key(derived_key(title, owner)) && byte_len(message) > MAX_MESSAGE_LEN
            ==> update_spec(m, true, owner, title, message) == Err::<StoreMap, JournalError>(
            JournalError::FieldTooLong,
        ),
{
}

} // verus!
