//! Epistemic verdict algebra with fixed-capacity containers that keep their elements inline.
pub mod bounded;
pub mod evidence;
pub mod policy;
pub mod verdict;

pub use bounded::BoundedArray;
pub use evidence::{EvidenceLog, EVIDENCE_LOG_CAPACITY};
pub use policy::{Policy, PolicyEngine};
pub use verdict::Verdict;
