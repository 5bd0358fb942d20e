//! Loader, module registry, mailboxes and just-in-time compilation planning for
//! a runtime with the BEAM's execution model.

pub mod atom;
pub mod error;
pub mod heap;
pub mod jit;
pub mod loader;
pub mod mailbox;
pub mod module;
pub mod native;
pub mod term;
pub mod text;
