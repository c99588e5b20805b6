pub mod unused_use;
pub mod unused_variable;
