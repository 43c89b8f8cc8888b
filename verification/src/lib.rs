pub mod interner;
pub mod types;
pub mod environment;
pub mod builtins_util;
pub mod errors;
pub mod eval;
pub mod bind_docs;
pub mod builtins_bind;
pub mod laws;
pub mod debugger;
