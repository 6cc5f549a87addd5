pub mod control;
pub mod store;
