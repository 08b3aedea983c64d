//! Keeps a catalog of a remote media collection in step with a metadata
//! provider: the remote tree walk, the file name heuristics, the choice among
//! provider candidates and the reconciliation with the previous snapshot.
//! Transport (the file store session, HTTP, JSON) is left to the caller.

pub mod text;
pub mod names;
pub mod types;
pub mod paths;
pub mod walk;
pub mod cache;
pub mod resolve;
pub mod movies;
pub mod shows;
