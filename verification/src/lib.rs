//! Directory-activated environment manager: resolves which environment
//! variables, shell aliases and one-shot commands become active or are torn
//! down as the working directory changes, compiles a declarative
//! configuration into a per-directory cache keyed by a content hash, and
//! emits the ordered shell directives for a directory transition.

pub mod cache;
pub mod codec;
pub mod config;
pub mod envfile;
pub mod matching;
pub mod resolve;
pub mod run;
pub mod shell;
pub mod strutil;
pub mod template;
pub mod utils;
pub mod vars;
