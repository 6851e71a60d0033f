//! Building blocks of concurrent programs, with their behaviour stated and
//! proved.
//!
//! The heart of the crate is `green`: a runtime of cooperative threads that
//! share one processor, with mailboxes for messages between them. It decides
//! which thread runs next and says which switch has to be made; switching
//! registers and handling the memory of stacks is left to the program round
//! it. `context` describes threads and their stacks, `mapped_list` holds the
//! mailboxes.
//!
//! The other modules are smaller: the banker's algorithm (`banker`), a
//! transactional memory (`tl2`), the steps of several locks (`spinlock`,
//! `ticketlock`, `fairlock`, `bakery`), the queue of a bounded channel
//! (`channel`), a task that is run in steps (`hello`) and the servers of two
//! small sessions (`session`).

pub mod bakery;
pub mod banker;
pub mod channel;
pub mod context;
pub mod fairlock;
pub mod fences;
pub mod green;
pub mod hello;
pub mod mapped_list;
pub mod session;
pub mod spinlock;
pub mod ticketlock;
pub mod tl2;
