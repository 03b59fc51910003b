//! A minimal cooperative task runtime paired with a readiness-event reactor,
//! verified with Verus.
//!
//! The crate models the pieces that let a single worker thread serve many
//! line-oriented TCP echo connections at once: a bounded FIFO run queue of
//! task cells, a registration table mapping descriptors to pending
//! continuations, a cross-thread command queue drained between blocking
//! waits, and the suspend-point state machines for accepting connections and
//! reading lines.  Alongside the runtime live small verified utilities:
//! recursive sequence helpers, an RPN calculator, and reference-passing
//! helpers.
//!
//! The reactor's one-shot discipline, the strict submission-order handling
//! of registration commands, and the byte-exact echo are stated as contracts
//! and proof functions in the respective modules; the host in charge of the
//! actual system calls drives these state machines and performs the actions
//! they return.

pub mod borrows;
pub mod conn;
pub mod hello;
pub mod list;
pub mod rpn;
pub mod runq;
pub mod selector;
