//! A first-responder dispatch primitive: a multiplexer offers each item to an
//! ordered list of weakly held listeners until one of them consumes it.
//!
//! Listeners are owned elsewhere. The multiplexer holds a weak handle to each
//! and never keeps one alive; a listener whose owners have all let go is
//! passed over, and its handle is dropped when the next listener registers.
//!
//! Whether a listener is still alive is decided outside this library, at any
//! moment. The contracts therefore speak of the marks that a pass found, one
//! for each handle, and hold whatever these marks were.

pub mod closure;
pub mod collect;
pub mod multiplexer;
pub mod observer;
pub mod registry;
pub mod relay;
pub mod weak;

pub use closure::box_obs;
pub use closure::FnObserver;
pub use multiplexer::offer;
pub use multiplexer::Multiplexer;
pub use observer::Observer;
pub use registry::WeakVec;
pub use weak::WeakRef;
