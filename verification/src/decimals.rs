pub mod arith;
pub mod decimal_type;
pub mod fixed_decimal;
pub mod text;
