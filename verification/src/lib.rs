use vstd::prelude::*;

pub mod identity;
pub mod text;
pub mod lines;
pub mod text_map;
pub mod projection;
pub mod agent_loop;
pub mod context_recovery;
pub mod workspace_discovery;
pub mod model_surface;
pub mod attempts;
pub mod language;
pub mod context;
pub mod delegation;
pub mod benchmark;
pub mod environment;
pub mod invocation;
pub mod selection;
pub mod application;
pub mod configuration;
pub mod tools;
pub mod debug;
pub mod resources;
pub mod preparation;
pub mod sorting;

verus! {

} // verus!
