use vstd::prelude::*;

pub mod text;
pub mod frontmatter;
pub mod paths;
pub mod assets;
pub mod json;
pub mod hooks;
pub mod mode;
pub mod state;
pub mod parallel;
pub mod provider;
pub mod runtime;
pub mod mcp;
pub mod secrets;
pub mod ai_providers;
pub mod ai;
pub mod ssh;
pub mod tools;
pub mod settings;
pub mod chat;
pub mod prompt;
pub mod order;

verus! {

} // verus!
