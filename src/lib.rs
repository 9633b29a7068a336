//! A keyed store of journal entries.
//!
//! Each entry is addressed by the pair (title, owner): its storage key is the
//! title's UTF-8 bytes followed by the owner's 32 key bytes, the same seeds
//! that locate the entry's program-derived account on the ledger. Because the
//! owner is part of the key, a caller can only ever reach the entries that its
//! own identity resolves to.

pub mod address;
pub mod entry;
pub mod key;
pub mod laws;
pub mod store;

pub use address::journal_entry_address;
pub use entry::{
    CreateJournalEntry, DeleteJournalEntry, JournalEntryState, JournalError, UpdateJournalEntry,
    MAX_MESSAGE_LEN, MAX_TITLE_LEN,
};
pub use key::{derive_key, Pubkey};
pub use store::{create_journal_entry, delete_journal_entry, update_journal_entry, JournalStore};
