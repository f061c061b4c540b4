//! Building blocks for lock-free structures, modelled so that every step of
//! their protocols is checked: deferred reclamation guarded by a quiescence
//! counter, an address slot whose reads run as critical code, and a
//! single-producer single-consumer channel over a chain of nodes.
//!
//! Shared state (the counter, a channel's chain) is an explicit value that
//! each operation borrows, so an interleaving of workers is a sequence of
//! calls, and the laws in [`reclaim`] and [`spsc`] hold for every such
//! sequence.
pub mod hazard;
pub mod reclaim;
pub mod spsc;

pub use hazard::HazardPtr;
pub use reclaim::{critical, later_drop, try_delete_local, GarbageQueue, Quiescence, Step};
pub use spsc::{channel, Chain, NoRecv, Receiver, RecvErr, Sender, Traffic};
