pub mod cascade;
pub mod flow;
pub mod path;
pub mod registry;
