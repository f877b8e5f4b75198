//! An in-process key-value cache with interchangeable expiry and eviction
//! policies, verified with Verus.
//!
//! Three policies share one interface, [`Cache`]: [`BasicCache`] keeps
//! everything, [`LruCache`] keeps a bounded number of entries and evicts the
//! least recently used, [`TtlCache`] gives every entry a time-to-live.
//! [`new_cache`] builds any of them from a [`CacheType`].

pub mod basiccache;
pub mod cache;
pub mod entry;
pub mod error;
pub mod theorems;
pub mod linked_list;
pub mod lrucache;
pub mod model;
pub mod order;
pub mod recency;
pub mod store;
pub mod time;
pub mod ttlcache;

pub use basiccache::BasicCache;
pub use cache::new_cache;
pub use cache::AnyCache;
pub use cache::Cache;
pub use cache::CacheType;
pub use entry::Entry;
pub use error::ConfigError;
pub use linked_list::DoublyLinkedList;
pub use linked_list::List;
pub use lrucache::LruCache;
pub use recency::RecencyIndex;
pub use store::Store;
pub use time::Duration;
pub use time::Instant;
pub use ttlcache::TtlCache;
