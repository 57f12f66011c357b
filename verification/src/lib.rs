//! A relationship ledger: directed trust, revocation and request edges
//! between identities, with a running total of the live edges in each
//! category. Every operation is idempotent, and each counter always equals
//! the number of edges currently present in its category.

mod counter;
mod edge_store;
mod errors;
mod events;
mod ledger;
mod list_store;
mod model;

pub use counter::Counter;
pub use counter::DefaultCurrent;
pub use edge_store::Edge;
pub use edge_store::EdgeStore;
pub use edge_store::edge_key;
pub use errors::Error;
pub use events::Event;
pub use ledger::Pallet;
pub use list_store::ListStore;
pub use list_store::Slot;
pub use list_store::slot_key;
pub use list_store::slot_pair;
pub use model::CategoryModel;
pub use model::StepOutcome;
pub use model::add_step;
pub use model::cat_empty;
pub use model::cat_has;
pub use model::cat_wf;
pub use model::lemma_add_idempotent;
pub use model::lemma_add_remove_leaves_no_edge;
pub use model::lemma_add_remove_round_trip;
pub use model::lemma_remove_absent_noop;
pub use model::lemma_step_preserves_wf;
pub use model::remove_step;
