pub mod namespace;

pub use namespace::run_namespace_checks;
