//! Verified core of the ZAP campaign store: registry names, capability
//! sets, trust bindings, change buffers and the pure decision rules of the
//! domain layer.

pub mod acceptance;
pub mod active_context;
pub mod admission;
pub mod affected_scope;
pub mod authority;
pub mod basis_indexes;
pub mod bytes;
pub mod change;
pub mod change_decision;
pub mod commit;
pub mod dreamer;
pub mod economics;
pub mod economics_context;
pub mod error;
pub mod holds;
pub mod identity;
pub mod ids;
pub mod index_rows;
pub mod information;
pub mod information_lowering;
pub mod information_query;
pub mod keyed;
pub mod materialize;
pub mod milestone_planning;
pub mod milestone_transforms;
pub mod milestones;
pub mod names;
pub mod offline;
pub mod ordering;
pub mod owner_control;
pub mod packets;
pub mod preflight;
pub mod registry;
pub mod revalidation;
pub mod subjects;
pub mod text;
pub mod transition;
pub mod trust;

pub use error::{ErrorCode, ZapError};
