//! A command history that keeps its entries in the order in which they came,
//! up to a capacity, and can be reconciled with a file of one entry per line
//! that several sessions share.
//!
//! Everything here computes on plain values. Opening, locking, reading and
//! writing the file is left to the caller, who hands the file's text in and
//! gets the text to write back.

pub mod codec;
pub mod error;
pub mod history;
pub mod ident;
pub mod item;
pub mod lines;
pub mod query;
pub mod search;
pub mod store;
pub mod sync;
pub mod text;

pub use codec::decode_entry;
pub use codec::encode_entry;
pub use codec::NEWLINE_ESCAPE;
pub use error::Feature;
pub use error::HistoryError;
pub use history::FileBackedHistory;
pub use history::HISTORY_SIZE;
pub use ident::HistoryItemId;
pub use ident::HistorySessionId;
pub use item::HistoryItem;
pub use query::CommandLineSearch;
pub use query::SearchDirection;
pub use query::SearchFilter;
pub use query::SearchQuery;
pub use store::OrderedStore;
pub use sync::SyncPlan;
