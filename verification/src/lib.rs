pub mod evaluator;
pub mod laws;
pub mod number;
pub mod parser;
pub mod tokenizer;
pub mod unicode;
pub mod value;
