pub mod assembly;
pub mod decimal;
pub mod emit;
pub mod error;
pub mod expression_parsers;
pub mod factors_parsers;
pub mod grammar;
pub mod operand_parsers;
pub mod operator_parsers;
pub mod primitives;
pub mod program_parsers;
pub mod registers;
pub mod term_parsers;
pub mod token;
pub mod vistor;
