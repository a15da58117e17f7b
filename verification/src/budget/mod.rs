pub mod selector;
pub mod tokenizer;
