//! Deck statistics, commander deck checks, card role tagging and deck-source
//! helpers for Magic: The Gathering deck lists.
pub mod text;
pub mod types;
pub mod error;
pub mod decklist;
pub mod analyzer;
pub mod db;
pub mod source_decks;
