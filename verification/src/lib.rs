//! A persistent memoization cache and address-resolution layer for a
//! shortest-path service over a large, mostly-static link graph.
//!
//! The store ([`store::CacheStore`]) keeps computed path results keyed by
//! the ordered `(source, destination)` pair, serves them back with usage
//! bookkeeping ([`store::lookup_path`]), records fresh results
//! ([`store::insert_path`]), and can be purged whole
//! ([`store::purge_cache`]). Free-text queries resolve to node ids
//! exactly or by substring suggestion ([`resolve::lookup_addr`]) against
//! a title catalog that is bulk-loaded in bounded batches from the graph
//! engine's node table ([`catalog::populate_addrs`]). A read-only,
//! sorted preview of the cached paths joins them against the live graph
//! ([`preview::get_cache`]).
//!
//! Every operation's behaviour is stated in its contract over the store's
//! transition functions; [`laws`] proves the cross-operation guarantees.

pub mod catalog;
pub mod graph;
pub mod laws;
pub mod outcome;
pub mod preview;
pub mod resolve;
pub mod store;
pub mod text;
