pub mod duplicate_switch_case;
pub mod fallthrough;
pub mod impossible_comparison;
pub mod redundant_condition;
pub mod unreachable;
pub mod unreachable_statement;
