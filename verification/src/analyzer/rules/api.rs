pub mod deprecated_api;
pub mod invalid_this;
