pub mod hard_coded_credentials;
pub mod hard_coded_keys;
pub mod include_user_input;
pub mod mutating_literal;
pub mod weak_hashing;
