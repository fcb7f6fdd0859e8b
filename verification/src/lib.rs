//! The verified core of a proxy that stands between an LSP client and a
//! language server and watches files on the client's behalf.

pub mod documents;
pub mod edits;
pub mod framing;
pub mod globs;
pub mod json;
pub mod messages;
pub mod proxy;
pub mod registration;
pub mod text;
pub mod uri;
pub mod watching;
