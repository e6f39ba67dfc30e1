//! Reconciles a terminology code system against an authoritative thesaurus
//! and a batch of proposed concepts.
pub mod concept;
pub mod thesaurus;
pub mod code_system;
pub mod laws;
pub mod report;
