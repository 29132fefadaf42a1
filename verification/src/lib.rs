//! An interactive installer and configuration editor for a Minecraft proxy
//! server: the verified core models an editable, format-preserving
//! configuration document, the per-field edit protocol, the
//! referential-integrity pass over the routing table, the before/after
//! change summary shown at the commit gate, and the installer's input
//! validation and generated files.

pub mod diff;
pub mod digest;
pub mod doc;
pub mod editors;
pub mod install;
pub mod integrity;
pub mod session;
pub mod text;
