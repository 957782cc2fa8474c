//! A filtering and caching bridge that forwards log events from native code
//! into a host interpreter's own logging subsystem.
//!
//! Log events carry a severity, a hierarchical source path (`a::b::c`) and a
//! message. The [`Logger`] filters them against a default threshold and
//! per-path overrides (the most specific configured ancestor wins), remembers
//! per path the host-side logging handle — and, with full caching, the host's
//! effective threshold — in a lock-free, copy-on-write tree, and dispatches
//! what passes to the host. A [`ResetHandle`] can clear the cache at any
//! time, for example after the host's logging settings change.

pub mod cache;
mod host;
pub mod level;
pub mod logger;
pub mod path;
mod sync;

pub use cache::CacheEntry;
pub use cache::CacheNode;
pub use level::map_level;
pub use level::Level;
pub use level::LevelFilter;
pub use logger::Caching;
pub use logger::Logger;
pub use logger::LoggerView;
pub use logger::ResetHandle;
