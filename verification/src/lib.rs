//! A step-through debugger core for visually-authored automation flows:
//! an immutable flow-graph model, a fully serializable debug-session state
//! machine with breakpoints and error-edge routing, and a stateless
//! snapshot-in / snapshot-out command surface, together with the
//! configuration, secrets-index and licensing logic of the surrounding
//! runner and studio applications.

pub mod codec;
pub mod config;
pub mod errors;
pub mod graph;
pub mod laws;
pub mod license;
pub mod numfmt;
pub mod platform;
pub mod protect;
pub mod run;
pub mod runner_info;
pub mod secrets;
pub mod session;
pub mod studio;
pub mod util;
pub mod value;
pub mod vars;
