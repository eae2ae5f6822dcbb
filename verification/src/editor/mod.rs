pub mod project;
pub mod state;
