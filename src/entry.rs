use vstd::prelude::*;

use crate::key::{derived_key, utf8_bytes, Pubkey, PUBKEY_LEN};

verus! {

/// Largest title, in UTF-8 bytes.
pub const MAX_TITLE_LEN: usize = 50;

/// Largest message, in UTF-8 bytes.
pub const MAX_MESSAGE_LEN: usize = 1000;

/// Length of a string in UTF-8 bytes.
pub open spec fn byte_len(s: Seq<char>) -> nat {
    utf8_bytes(s).len()
}

/// A stored journal entry. `owner` and `title` are fixed at creation and
/// together form the entry's key; only `message` changes afterwards.
#[derive(Debug)]
pub struct JournalEntryState {
    pub owner: Pubkey,
    pub title: String,
    pub message: String,
}

/// The mathematical value of a journal entry.
pub struct JournalEntryView {
    pub owner: Seq<u8>,
    pub title: Seq<char>,
    pub message: Seq<char>,
}

impl JournalEntryView {
    /// The key under which this entry is stored.
    pub open spec fn key(self) -> Seq<u8> {
        derived_key(self.title, self.owner)
    }

    /// The entry's owner is a full key and its fields fit their bounds.
    pub open spec fn well_formed(self) -> bool {
        &&& self.owner.len() == PUBKEY_LEN
        &&& byte_len(self.title) <= MAX_TITLE_LEN
        &&& byte_len(self.message) <= MAX_MESSAGE_LEN
    }
}

impl View for JournalEntryState {
    type V = JournalEntryView;

    open spec fn view(&self) -> JournalEntryView {
        JournalEntryView { owner: self.owner@, title: self.title@, message: self.message@ }
    }
}

/// Why an operation on the store was refused.
#[derive(Clone, Copy, Debug, PartialEq, Eq, Structural)]
pub enum JournalError {
    /// The title or the message exceeds its byte bound.
    FieldTooLong,
    /// An entry already exists under the key.
    AlreadyExists,
    /// No entry exists under the key.
    NotFound,
    /// The caller did not sign the request.
    Unauthenticated,
    /// The entry under the key belongs to another principal.
    Unauthorized,
}

/// The accounts of a create request: the caller, and whether the host
/// verified its signature.
#[derive(Clone, Copy, Debug)]
pub struct CreateJournalEntry {
    pub owner: Pubkey,
    pub owner_is_signer: bool,
}

/// The accounts of an update request.
#[derive(Clone, Copy, Debug)]
pub struct UpdateJournalEntry {
    pub owner: Pubkey,
    pub owner_is_signer: bool,
}

/// The accounts of a delete request.
#[derive(Clone, Copy, Debug)]
pub struct DeleteJournalEntry {
    pub owner: Pubkey,
    pub owner_is_signer: bool,
}

} // verus!
