pub mod array_checks;
pub mod consistent_return;
pub mod force_return_type;
pub mod missing_argument;
pub mod missing_return;
pub mod phpdoc_param_check;
pub mod phpdoc_return_check;
pub mod phpdoc_return_value_check;
pub mod phpdoc_var_check;
pub mod strict_types;
pub mod type_mismatch;
