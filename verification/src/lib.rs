//! Command-dispatch and collection-state-management layer of a study-data
//! engine: a binary request/response protocol, an exclusive guard around the
//! one open collection, a total error translator, and a cancellable progress
//! channel.

pub mod codec;
pub mod wire;
pub mod proto;
pub mod text;
pub mod err;
pub mod i18n;
pub mod card;
pub mod collection;
pub mod scan;
pub mod avtags;
pub mod template;
pub mod sched;
pub mod timespan;
pub mod search;
pub mod backend;
