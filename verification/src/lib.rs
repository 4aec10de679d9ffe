//! Reactive stores modeled after the JavaScript nanostores API.
//!
//! Every store here is the decision core of a reactive store: it holds the
//! value, knows who listens (each listener and hook is named by the id it
//! was registered under) and says, for each operation, which listeners and
//! hooks must be called next and with what. Running those callbacks is the
//! caller's part.

pub mod any;
pub mod atom;
pub mod collection;
pub mod computed;
pub mod context;
pub mod error;
pub mod lifecycle;
pub mod map;
pub mod naming;
pub mod scheduler;
pub mod store;
pub mod subscription;

pub use any::{AnyStore, AnyStoreView};
pub use atom::{atom, Atom};
pub use collection::{collection, Collection, CollectionStore, ORDER_KEY};
pub use computed::{
    batched, computed, Batched, ComputeDeps, Computed, ComputedListened, ComputedUnmounted,
    Notifications, Recompute,
};
pub use context::{ChangeContext, NotifyContext, SetContext};
pub use error::KeyError;
pub use lifecycle::{on_mount, on_notify, on_set, on_start, on_stop, Lifecycle};
pub use map::MapStore;
pub use naming::{field_key, rename_field, to_camel_case, to_pascal_case};
pub use scheduler::{
    flush, flush_due, schedule, set_scheduler, set_scheduler_if_unset, ImmediateScheduler, JobQueue,
    Scheduler,
};
pub use store::{
    ChangeHooks, Delivery, HookKind, Listened, NoHooks, ReadableStore, SetOutcome, StoreCore,
    StoreLike, Unmounted,
};
pub use subscription::Subscription;
pub mod laws;
