//! A callback registry with a runtime-checked exclusive/shared access guard.
//!
//! A [`GuardedCell`](cell::GuardedCell) enforces a single-writer/multi-reader
//! discipline at runtime: an acquisition that is incompatible with the cell's
//! current access state is reported as an [`AccessConflict`](access::AccessConflict)
//! instead of blocking or corrupting state.  Two registries dispatch an ordered
//! list of callbacks over a value: [`CallbacksMut`](exclusive::CallbacksMut)
//! demands exclusive access for the whole dispatch, while
//! [`Callbacks`](shared::Callbacks) only holds a shared guard, so that a
//! callback may re-enter the registry as long as it too asks only for shared
//! access.

pub mod access;
pub mod cell;
pub mod exclusive;
pub mod laws;
pub mod model;
pub mod shared;

pub use access::AccessConflict;
pub use access::AccessState;
pub use cell::GuardedCell;
pub use exclusive::CallbacksMut;
pub use exclusive::MutCallback;
pub use model::Event;
pub use shared::Callback;
pub use shared::Callbacks;
pub use shared::FibState;
