pub mod array_key_not_defined;
pub mod duplicate_declaration;
pub mod undefined_variable;
