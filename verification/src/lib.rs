//! Sales, licensing and royalty accounting for ebooks.
//!
//! An author publishes a book under an identifier; readers buy a copy and
//! receive a 32-byte license hash; each sale's price is split between the
//! author and a co-author at a ratio given in basis points; a reader may ask
//! for a refund within the book's refund window, which revokes the license
//! and takes the sale back out of the accounting.
//!
//! Identifiers (book ids and accounts) are byte strings. The ledger sequence
//! and the 64-bit host values that the license hash mixes in are handed in by
//! the caller.
pub mod error;
pub mod kindle;
pub mod laws;
pub mod license;
pub mod model;
pub mod royalty;
pub mod table;
