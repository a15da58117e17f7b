pub mod repetition;
